//! Row plans: which rows of a tick form a sequence, which prefixes it saves,
//! and how its rows are cut into recurrent chunks and attention tiles.
use vstd::prelude::*;
use crate::arith::min;
use crate::error::{Fault, MetalError};
use crate::program::list4;
use crate::qwen35::graph::MAX_CONTEXT;
use crate::qwen35::image::{all_wf, keys, same_images, Key};
use crate::rows::{
    count_slot, holding, lemma_count_slot, lemma_holding, lemma_holding_join, lemma_listed,
    lemma_listed_join, lemma_seg_end, lemma_seg_start, lemma_tile_rows, lemma_tile_rows_join,
    lemma_tiles_inside, lemma_tiles_join, lemma_within_join, listed, push_rows, push_tiles, same_tokens,
    seg_end, seg_start, tile_pairs, tile_rows, tiles_inside, tokens, visits, within, Row, TILE,
};
use crate::qwen35::state::{
    choose_destination, destination, destination_is_least, emptied, release, saved, Checkpoint,
    Qwen35, Released, Saved, Slot,
};

verus! {

/// From this many rows a sequence is appended, not decoded row by row.
pub const APPEND_ROWS: usize = 16;

/// What is wrong with row `r`, given the rows before it.
pub open spec fn row_fault(
    slots: Seq<Slot>,
    vocab: usize,
    context: usize,
    rows: Seq<Row>,
    r: int,
) -> Option<Fault> {
    let row = rows[r];
    if row.slot >= slots.len() || row.token >= vocab || row.position >= context || row.position
        != slots[row.slot as int].history.len() + count_slot(rows.take(r), row.slot) {
        Some(Fault::Row { slot: row.slot, token: row.token, position: row.position })
    } else if (r == 0 || rows[r - 1].slot != row.slot) && visits(rows.take(r), row.slot) {
        Some(Fault::Revisited)
    } else {
        None
    }
}

/// The first fault from row `r` on.
pub open spec fn first_fault(
    slots: Seq<Slot>,
    vocab: usize,
    context: usize,
    rows: Seq<Row>,
    r: int,
) -> Option<Fault>
    decreases rows.len() - r,
{
    if r >= rows.len() {
        None
    } else {
        match row_fault(slots, vocab, context, rows, r) {
            Some(f) => Some(f),
            None => first_fault(slots, vocab, context, rows, r + 1),
        }
    }
}

/// A saved prefix that a plan takes: entry, sequence and what it will hold.
pub struct Taken {
    pub index: int,
    pub slot: usize,
    pub history: Seq<u32>,
}

#[derive(Debug)]
pub struct Capture {
    pub index: usize,
    pub slot: usize,
    pub history: Vec<u32>,
}

impl View for Capture {
    type V = Taken;

    open spec fn view(&self) -> Taken {
        Taken { index: self.index as int, slot: self.slot, history: self.history@ }
    }
}

/// The cache while prefixes are taken, the row markers, and what was taken
/// from where.
pub struct Captures {
    pub cache: Seq<Saved>,
    pub rows: Seq<u32>,
    pub taken: Seq<Taken>,
    pub released: Seq<(int, Saved)>,
}

pub open spec fn holds_prefix(cache: Seq<Saved>, history: Seq<u32>, images: Seq<Key>) -> bool {
    exists|i: int|
        0 <= i < cache.len() && (#[trigger] cache[i]).history == history && cache[i].images == images
}

/// The tokens of row `r`'s sequence up to and including it.
pub open spec fn history_at(slots: Seq<Slot>, rows: Seq<Row>, r: int) -> Seq<u32> {
    slots[rows[r].slot as int].history@ + tokens(rows.subrange(seg_start(rows, r), r + 1))
}

/// Row `r` ends a prefix worth saving.
pub open spec fn ends_cut(slots: Seq<Slot>, rows: Seq<Row>, r: int) -> bool {
    slots[rows[r].slot as int].cuts@.contains((rows[r].position + 1) as usize)
}

/// Take a destination for row `r` where it ends a prefix that is not saved
/// yet. Saving is optional: with every entry reserved the row is passed over.
pub open spec fn capture_row(
    slots: Seq<Slot>,
    verifying: bool,
    rows: Seq<Row>,
    c: Captures,
    r: int,
) -> Captures {
    let slot = slots[rows[r].slot as int];
    let history = history_at(slots, rows, r);
    let passed = Captures { rows: c.rows.push(0), ..c };
    if verifying || !ends_cut(slots, rows, r) || holds_prefix(c.cache, history, slot.image_keys()) {
        passed
    } else {
        match destination(c.cache, c.cache.len() as int) {
            None => passed,
            Some(i) => Captures {
                cache: c.cache.update(i, emptied(c.cache[i], true)),
                rows: c.rows.push((slots.len() + i + 1) as u32),
                taken: c.taken.push(Taken { index: i, slot: rows[r].slot, history }),
                released: c.released.push((i, c.cache[i])),
            },
        }
    }
}

/// The state after the first `n` rows.
pub open spec fn captures(
    slots: Seq<Slot>,
    verifying: bool,
    rows: Seq<Row>,
    cache: Seq<Saved>,
    n: int,
) -> Captures
    decreases n,
{
    if n <= 0 {
        Captures { cache, rows: Seq::empty(), taken: Seq::empty(), released: Seq::empty() }
    } else {
        capture_row(slots, verifying, rows, captures(slots, verifying, rows, cache, n - 1), n - 1)
    }
}

/// What decides how a sequence's rows are cut.
pub struct Cutting {
    pub rows: Seq<Row>,
    /// Row markers of the saved prefixes.
    pub marks: Seq<u32>,
    pub slots: Seq<Slot>,
    /// Prompt rows keep the append route whatever their number.
    pub pinned: bool,
    /// The packed lane, and where its grouped decode begins.
    pub splash: bool,
    pub long_decode: usize,
}

/// The device tables of a plan.
pub struct Tables {
    pub spans: Seq<u32>,
    pub chunks: Seq<u32>,
    pub tiles: Seq<u32>,
    pub decode_rows: Seq<u32>,
    pub long_decode_tiles: Seq<u32>,
    pub checkpoint_spans: Seq<u32>,
}

impl Tables {
    pub open spec fn none() -> Self {
        Tables {
            spans: Seq::empty(),
            chunks: Seq::empty(),
            tiles: Seq::empty(),
            decode_rows: Seq::empty(),
            long_decode_tiles: Seq::empty(),
            checkpoint_spans: Seq::empty(),
        }
    }

    pub open spec fn join(self, other: Self) -> Self {
        Tables {
            spans: self.spans + other.spans,
            chunks: self.chunks + other.chunks,
            tiles: self.tiles + other.tiles,
            decode_rows: self.decode_rows + other.decode_rows,
            long_decode_tiles: self.long_decode_tiles + other.long_decode_tiles,
            checkpoint_spans: self.checkpoint_spans + other.checkpoint_spans,
        }
    }

    proof fn lemma_join(self, b: Self, c: Self)
        ensures
            self.join(b).join(c) == self.join(b.join(c)),
            self.join(Self::none()) == self,
            Self::none().join(self) == self,
    {
        let l = self.join(b).join(c);
        let r = self.join(b.join(c));
        assert(l.spans =~= r.spans);
        assert(l.chunks =~= r.chunks);
        assert(l.tiles =~= r.tiles);
        assert(l.decode_rows =~= r.decode_rows);
        assert(l.long_decode_tiles =~= r.long_decode_tiles);
        assert(l.checkpoint_spans =~= r.checkpoint_spans);
        let x = self.join(Self::none());
        let y = Self::none().join(self);
        assert(x.spans =~= self.spans && y.spans =~= self.spans);
        assert(x.chunks =~= self.chunks && y.chunks =~= self.chunks);
        assert(x.tiles =~= self.tiles && y.tiles =~= self.tiles);
        assert(x.decode_rows =~= self.decode_rows && y.decode_rows =~= self.decode_rows);
        assert(x.long_decode_tiles =~= self.long_decode_tiles && y.long_decode_tiles
            =~= self.long_decode_tiles);
        assert(x.checkpoint_spans =~= self.checkpoint_spans && y.checkpoint_spans
            =~= self.checkpoint_spans);
    }
}

/// The first marked row from `r` on, plus one, or `limit`.
pub open spec fn next_cut(marks: Seq<u32>, r: int, limit: int) -> int
    decreases limit - r,
{
    if r >= limit {
        limit
    } else if marks[r] != 0 {
        r + 1
    } else {
        next_cut(marks, r + 1, limit)
    }
}

pub proof fn lemma_next_cut(marks: Seq<u32>, r: int, limit: int)
    requires
        r < limit,
    ensures
        r < next_cut(marks, r, limit) <= limit,
        forall|i: int| r <= i < next_cut(marks, r, limit) - 1 ==> #[trigger] marks[i] == 0,
    decreases limit - r,
{
    if marks[r] == 0 {
        if r + 1 < limit {
            lemma_next_cut(marks, r + 1, limit);
        } else {
            assert(next_cut(marks, r + 1, limit) == limit);
        }
    }
}

impl Cutting {
    /// Rows `first..` are appended: many of them, or prompt rows on a lane
    /// that pins prompt arithmetic.
    pub open spec fn appends(self, first: int) -> bool {
        let row = self.rows[first];
        seg_end(self.rows, first) - first >= APPEND_ROWS || (self.pinned && row.position
            < self.slots[row.slot as int].prefill_end)
    }

    /// Recurrent chunks of at most 32 rows; a saved prefix ends its chunk.
    pub open spec fn chunks(rows: Seq<Row>, marks: Seq<u32>, r: int, end: int) -> Seq<u32>
        decreases end - r,
    {
        if r >= end {
            Seq::empty()
        } else {
            let next = next_cut(marks, r, min(r + TILE, end));
            if next <= r || next > end {
                Seq::empty()
            } else {
                seq![r as u32, (next - r) as u32, rows[r].slot as u32, marks[next - 1]]
                    + Self::chunks(rows, marks, next, end)
            }
        }
    }

    /// Where the grouped decode route begins.
    pub open spec fn long_from(rows: Seq<Row>, long_decode: int, r: int, end: int) -> int
        decreases end - r,
    {
        if r >= end || rows[r].position + 1 >= long_decode {
            r
        } else {
            Self::long_from(rows, long_decode, r + 1, end)
        }
    }

    /// Saved prefixes of a sequence as (row, destination) pairs; room for two.
    pub open spec fn marked(marks: Seq<u32>, r: int, end: int) -> Seq<u32>
        decreases end - r,
    {
        if r >= end {
            Seq::empty()
        } else if marks[r] != 0 {
            seq![r as u32, marks[r]] + Self::marked(marks, r + 1, end)
        } else {
            Self::marked(marks, r + 1, end)
        }
    }

    pub open spec fn cut_quad(marks: Seq<u32>, first: int, end: int) -> Seq<u32> {
        let pairs = Self::marked(marks, first, end);
        Seq::new(4, |i: int| if i < pairs.len() { pairs[i] } else { 0u32 })
    }

    /// The tables of the sequence that starts at `first`.
    pub open spec fn segment(self, first: int, base: int) -> Tables {
        let end = seg_end(self.rows, first);
        let append = self.appends(first);
        let long = if self.splash {
            Self::long_from(self.rows, self.long_decode as int, first, end)
        } else {
            end
        };
        Tables {
            spans: seq![
                first as u32,
                (end - first) as u32,
                self.rows[first].slot as u32,
                base as u32,
            ],
            chunks: if append { Self::chunks(self.rows, self.marks, first, end) } else { Seq::empty() },
            tiles: if append { tile_pairs(first, end, TILE as int) } else { Seq::empty() },
            decode_rows: if append {
                Seq::empty()
            } else {
                Seq::new((long - first) as nat, |i: int| (first + i) as u32)
            },
            long_decode_tiles: if append { Seq::empty() } else { tile_pairs(long, end, 8) },
            checkpoint_spans: Self::cut_quad(self.marks, first, end),
        }
    }

    /// The tables of every sequence from `first` on, in order; `base` chunks
    /// stand before them.
    pub open spec fn tables(self, first: int, base: int) -> Tables
        decreases self.rows.len() - first,
    {
        let end = seg_end(self.rows, first);
        if first >= self.rows.len() || end <= first || end > self.rows.len() {
            Tables::none()
        } else {
            let here = self.segment(first, base);
            here.join(self.tables(end, base + here.chunks.len() as int / 4))
        }
    }

    /// First and end row of each row's sequence.
    pub open spec fn bounds(rows: Seq<Row>) -> Seq<u32> {
        Seq::new(
            rows.len() * 2,
            |i: int| if i % 2 == 0 {
                seg_start(rows, i / 2) as u32
            } else {
                seg_end(rows, i / 2) as u32
            },
        )
    }
}

/// A validated, immutable row plan. Tables are uploaded again when a plan is
/// resumed, since other slots may have moved on meanwhile.
#[derive(Debug)]
pub struct Plan {
    pub rows: Vec<Row>,
    pub selected: Vec<usize>,
    pub spans: Vec<u32>,
    pub chunks: Vec<u32>,
    pub bounds: Vec<u32>,
    pub tiles: Vec<u32>,
    pub decode_rows: Vec<u32>,
    pub long_decode_tiles: Vec<u32>,
    pub checkpoint_rows: Vec<u32>,
    pub checkpoint_spans: Vec<u32>,
    pub checkpoints: Vec<Capture>,
}

impl Plan {
    pub open spec fn tables(&self) -> Tables {
        Tables {
            spans: self.spans@,
            chunks: self.chunks@,
            tiles: self.tiles@,
            decode_rows: self.decode_rows@,
            long_decode_tiles: self.long_decode_tiles@,
            checkpoint_spans: self.checkpoint_spans@,
        }
    }
}

impl Qwen35 {
    /// The most rows whose logits one tick can return.
    pub open spec fn selectable(&self) -> int {
        if self.graph.verifying { (self.graph.spec->0).rows as int } else { self.slots.len() as int }
    }

    pub open spec fn selection_fault(&self, rows: Seq<Row>, selected: Seq<usize>) -> bool {
        ||| rows.len() == 0
        ||| rows.len() > self.graph.row_capacity
        ||| selected.len() > self.selectable()
        ||| exists|i: int| 0 <= i < selected.len() && #[trigger] selected[i] >= rows.len()
    }

    /// What a tick is refused for: its row count or selection first, then its
    /// first faulty row.
    pub open spec fn tick_fault(&self, rows: Seq<Row>, selected: Seq<usize>) -> Option<Fault> {
        if self.selection_fault(rows, selected) {
            Some(Fault::Selection)
        } else {
            first_fault(self.slots@, self.graph.vocab, self.graph.context, rows, 0)
        }
    }

    pub open spec fn cutting(&self, rows: Seq<Row>, marks: Seq<u32>) -> Cutting {
        Cutting {
            rows,
            marks,
            slots: self.slots@,
            pinned: !self.graph.verifying && (self.graph.splash || self.graph.bonsai is Some
                || self.graph.affine_prefill()),
            splash: self.graph.splash,
            long_decode: self.graph.lanes.long_decode,
        }
    }

    /// Check a tick before anything is reserved.
    pub fn check_rows(&self, rows: &Vec<Row>, selected: &Vec<usize>) -> (r: Result<(), MetalError>)
        requires
            self.wf(),
        ensures
            match self.tick_fault(rows@, selected@) {
                None => r == Ok::<(), MetalError>(()),
                Some(f) => r == Err::<(), MetalError>(MetalError::Model(f)),
            },
    {
        let m: usize = rows.len();
        let limit: usize = if self.graph.verifying {
            self.graph.spec.unwrap().rows
        } else {
            self.slots.len()
        };
        if m == 0 || m > self.graph.row_capacity || selected.len() > limit {
            return Err(MetalError::Model(Fault::Selection));
        }
        let mut i: usize = 0;
        while i < selected.len()
            invariant
                i <= selected.len(),
                m == rows.len(),
                forall|j: int| 0 <= j < i ==> #[trigger] selected[j] < m,
            decreases selected.len() - i,
        {
            if selected[i] >= m {
                return Err(MetalError::Model(Fault::Selection));
            }
            i = i + 1;
        }
        assert(!self.selection_fault(rows@, selected@));
        let mut lengths: Vec<usize> = Vec::new();
        let mut seen: Vec<bool> = Vec::new();
        let mut s: usize = 0;
        while s < self.slots.len()
            invariant
                s <= self.slots.len(),
                lengths.len() == s,
                seen.len() == s,
                forall|j: int| 0 <= j < s ==> #[trigger] lengths[j] == self.slots[j].history.len(),
                forall|j: int| 0 <= j < s ==> !#[trigger] seen[j],
            decreases self.slots.len() - s,
        {
            lengths.push(self.slots[s].history.len());
            seen.push(false);
            s = s + 1;
        }
        let vocab: usize = self.graph.vocab;
        let context: usize = self.graph.context;
        let mut r: usize = 0;
        proof {
            assert(rows@.take(0) =~= Seq::<Row>::empty());
        }
        while r < m
            invariant
                r <= m,
                m == rows.len(),
                self.wf(),
                !self.selection_fault(rows@, selected@),
                vocab == self.graph.vocab,
                context == self.graph.context,
                lengths.len() == self.slots.len(),
                seen.len() == self.slots.len(),
                forall|j: int|
                    0 <= j < self.slots.len() ==> #[trigger] lengths[j] == self.slots[j].history.len()
                        + count_slot(rows@.take(r as int), j as usize),
                forall|j: int|
                    0 <= j < self.slots.len() ==> #[trigger] seen[j] == visits(
                        rows@.take(r as int),
                        j as usize,
                    ),
                first_fault(self.slots@, vocab, context, rows@, 0) == first_fault(
                    self.slots@,
                    vocab,
                    context,
                    rows@,
                    r as int,
                ),
            decreases m - r,
        {
            let row = rows[r];
            let ghost before = rows@.take(r as int);
            let ghost after = rows@.take(r + 1);
            proof {
                assert(after.drop_last() =~= before);
                assert(after.last() == row);
            }
            if row.slot >= self.slots.len() || row.token as usize >= vocab || row.position as usize
                >= context || row.position as usize != lengths[row.slot] {
                return Err(
                    MetalError::Model(
                        Fault::Row { slot: row.slot, token: row.token, position: row.position },
                    ),
                );
            }
            let opens = r == 0 || rows[r - 1].slot != row.slot;
            if opens && seen[row.slot] {
                return Err(MetalError::Model(Fault::Revisited));
            }
            proof {
                assert(visits(after, row.slot)) by {
                    assert(after[r as int].slot == row.slot);
                }
                assert forall|j: int| 0 <= j < self.slots.len() && j != row.slot implies #[trigger] visits(
                    before,
                    j as usize,
                ) == visits(after, j as usize) by {
                    if visits(before, j as usize) {
                        let w = choose|w: int|
                            0 <= w < before.len() && (#[trigger] before[w]).slot == j as usize;
                        assert(after[w].slot == j as usize);
                    }
                    if visits(after, j as usize) {
                        let w = choose|w: int|
                            0 <= w < after.len() && (#[trigger] after[w]).slot == j as usize;
                        assert(before[w].slot == j as usize);
                    }
                }
            }
            seen.set(row.slot, true);
            let n: usize = lengths[row.slot];
            lengths.set(row.slot, n + 1);
            r = r + 1;
        }
        Ok(())
    }
}

/// Every row of a sound tick is sound by itself.
pub proof fn lemma_rows_sound(
    slots: Seq<Slot>,
    vocab: usize,
    context: usize,
    rows: Seq<Row>,
    from: int,
    r: int,
)
    requires
        0 <= from <= r < rows.len(),
        first_fault(slots, vocab, context, rows, from) is None,
    ensures
        row_fault(slots, vocab, context, rows, r) is None,
    decreases r - from,
{
    if from < r {
        lemma_rows_sound(slots, vocab, context, rows, from + 1, r);
    }
}

pub open spec fn slots_valid(slots: Seq<Slot>, rows: Seq<Row>) -> bool {
    forall|r: int| 0 <= r < rows.len() ==> (#[trigger] rows[r]).slot < slots.len()
}

pub open spec fn released_view(v: Seq<Released>) -> Seq<(int, Saved)> {
    v.map_values(|x: Released| (x.index as int, x.saved@))
}

pub open spec fn taken_view(v: Seq<Capture>) -> Seq<Taken> {
    v.map_values(|x: Capture| x@)
}

fn extended(history: &Vec<u32>, rows: &Vec<Row>, first: usize, end: usize) -> (r: Vec<u32>)
    requires
        first <= end <= rows.len(),
    ensures
        r@ == history@ + tokens(rows@.subrange(first as int, end as int)),
{
    let mut r: Vec<u32> = Vec::new();
    let mut i: usize = 0;
    while i < history.len()
        invariant
            i <= history.len(),
            r@ == history@.take(i as int),
        decreases history.len() - i,
    {
        r.push(history[i]);
        assert(history@.take(i + 1) =~= history@.take(i as int).push(history[i as int]));
        i = i + 1;
    }
    assert(history@.take(history.len() as int) =~= history@);
    let mut k: usize = first;
    assert(tokens(rows@.subrange(first as int, first as int)) =~= Seq::<u32>::empty());
    while k < end
        invariant
            first <= k <= end <= rows.len(),
            r@ == history@ + tokens(rows@.subrange(first as int, k as int)),
        decreases end - k,
    {
        r.push(rows[k].token);
        assert(tokens(rows@.subrange(first as int, k + 1)) =~= tokens(
            rows@.subrange(first as int, k as int),
        ).push(rows[k as int].token));
        k = k + 1;
    }
    r
}

fn has_prefix(cache: &Vec<Checkpoint>, history: &Vec<u32>, slot: &Slot) -> (r: bool)
    ensures
        r == holds_prefix(saved(cache@), history@, slot.image_keys()),
{
    let mut i: usize = 0;
    while i < cache.len()
        invariant
            i <= cache.len(),
            forall|j: int|
                0 <= j < i ==> !((#[trigger] saved(cache@)[j]).history == history@ && saved(cache@)[j].images
                    == slot.image_keys()),
        decreases cache.len() - i,
    {
        let c = &cache[i];
        assert(saved(cache@)[i as int] == cache[i as int]@);
        if same_tokens(&c.history, history) {
            let alike = match &slot.mm {
                Some(m) => same_images(&c.images, &m.keys),
                None => {
                    assert(keys(c.images@) == Seq::<Key>::empty() <==> c.images.len() == 0) by {
                        assert(keys(c.images@).len() == c.images.len());
                        if c.images.len() == 0 {
                            assert(keys(c.images@) =~= Seq::<Key>::empty());
                        }
                    }
                    c.images.len() == 0
                },
            };
            if alike {
                return true;
            }
        }
        i = i + 1;
    }
    false
}

fn contains(cuts: &Vec<usize>, cut: usize) -> (r: bool)
    ensures
        r == cuts@.contains(cut),
{
    let mut i: usize = 0;
    while i < cuts.len()
        invariant
            i <= cuts.len(),
            forall|j: int| 0 <= j < i ==> cuts[j] != cut,
        decreases cuts.len() - i,
    {
        if cuts[i] == cut {
            return true;
        }
        i = i + 1;
    }
    false
}

/// What taking prefixes leaves: row markers, what was taken, and what the
/// destinations held before.
#[derive(Debug)]
pub struct CaptureList {
    pub rows: Vec<u32>,
    pub taken: Vec<Capture>,
    pub released: Vec<Released>,
}

/// The rest of the decoder is untouched.
pub open spec fn only_cache_changes(a: Qwen35, b: Qwen35) -> bool {
    &&& a.graph == b.graph
    &&& a.slots == b.slots
    &&& a.clock == b.clock
    &&& a.pending == b.pending
    &&& a.uncommitted == b.uncommitted
    &&& a.cache.len() == b.cache.len()
}

impl Qwen35 {
    fn capture_rows(&mut self, rows: &Vec<Row>) -> (r: CaptureList)
        requires
            old(self).wf(),
            slots_valid(old(self).slots@, rows@),
            rows.len() <= crate::arith::MAX_ROWS,
            forall|i: int| 0 <= i < rows.len() ==> (#[trigger] rows[i]).position < old(self).graph.context,
        ensures
            final(self).wf(),
            only_cache_changes(*final(self), *old(self)),
            (Captures {
                cache: final(self).checkpoints(),
                rows: r.rows@,
                taken: taken_view(r.taken@),
                released: released_view(r.released@),
            }) == captures(
                old(self).slots@,
                old(self).graph.verifying,
                rows@,
                old(self).checkpoints(),
                rows.len() as int,
            ),
            r.rows.len() == rows.len(),
            forall|i: int|
                0 <= i < r.taken.len() ==> (#[trigger] r.taken[i]).index < old(self).cache.len()
                    && r.taken[i].slot < old(self).slots.len(),
    {
        let ghost start = old(self).checkpoints();
        let ghost slots = old(self).slots@;
        let verifying = self.graph.verifying;
        let mut marks: Vec<u32> = Vec::new();
        let mut taken: Vec<Capture> = Vec::new();
        let mut released: Vec<Released> = Vec::new();
        let mut first: usize = 0;
        let mut r: usize = 0;
        proof {
            assert(taken_view(taken@) =~= Seq::<Taken>::empty());
            assert(released_view(released@) =~= Seq::<(int, Saved)>::empty());
        }
        while r < rows.len()
            invariant
                r <= rows.len(),
                rows.len() <= crate::arith::MAX_ROWS,
                self.wf(),
                only_cache_changes(*self, *old(self)),
                slots == self.slots@,
                start == old(self).checkpoints(),
                verifying == self.graph.verifying,
                slots_valid(slots, rows@),
                forall|i: int| 0 <= i < rows.len() ==> (#[trigger] rows[i]).position < self.graph.context,
                r > 0 ==> first == seg_start(rows@, r - 1) && first < r,
                marks.len() == r,
                (Captures {
                    cache: self.checkpoints(),
                    rows: marks@,
                    taken: taken_view(taken@),
                    released: released_view(released@),
                }) == captures(slots, verifying, rows@, start, r as int),
                forall|i: int|
                    0 <= i < taken.len() ==> (#[trigger] taken[i]).index < self.cache.len()
                        && taken[i].slot < self.slots.len(),
            decreases rows.len() - r,
        {
            let row = rows[r];
            if r == 0 || rows[r - 1].slot != row.slot {
                first = r;
            }
            assert(first == seg_start(rows@, r as int) && first <= r);
            let ghost before = captures(slots, verifying, rows@, start, r as int);
            let mut mark: u32 = 0;
            assert(row.slot < self.slots.len());
            if !verifying && contains(&self.slots[row.slot].cuts, row.position as usize + 1) {
                let history = extended(&self.slots[row.slot].history, rows, first, r + 1);
                assert(history@ == history_at(slots, rows@, r as int));
                if !has_prefix(&self.cache, &history, &self.slots[row.slot]) {
                    if let Some(index) = choose_destination(&self.cache) {
                        proof {
                            assert(self.checkpoints()[index as int] == self.cache[index as int]@);
                        }
                        let out = release(&mut self.cache, index, true);
                        mark = (self.slots.len() + index + 1) as u32;
                        let ghost c = Capture { index, slot: row.slot, history };
                        taken.push(Capture { index, slot: row.slot, history });
                        let ghost o = out;
                        released.push(out);
                        proof {
                            assert(self.checkpoints() == before.cache.update(
                                index as int,
                                emptied(before.cache[index as int], true),
                            ));
                            assert(self.cache[index as int]@ == self.checkpoints()[index as int]);
                            assert(taken_view(taken@) =~= before.taken.push(c@));
                            assert(released_view(released@) =~= before.released.push(
                                (index as int, before.cache[index as int]),
                            ));
                            assert forall|i: int| 0 <= i < self.cache.len() implies all_wf(
                                (#[trigger] self.cache[i]).images@,
                            ) && self.cache[i].history.len() <= self.graph.context by {
                            }
                        }
                    }
                }
            }
            marks.push(mark);
            r = r + 1;
        }
        CaptureList { rows: marks, taken, released }
    }
}

proof fn lemma_chunks_quads(rows: Seq<Row>, marks: Seq<u32>, r: int, end: int)
    ensures
        Cutting::chunks(rows, marks, r, end).len() % 4 == 0,
    decreases end - r,
{
    if r < end {
        let next = next_cut(marks, r, min(r + TILE, end));
        if r < next <= end {
            lemma_chunks_quads(rows, marks, next, end);
        }
    }
}

fn push_chunks(out: &mut Vec<u32>, rows: &Vec<Row>, marks: &Vec<u32>, first: usize, end: usize)
    requires
        first <= end <= rows.len(),
        marks.len() == rows.len(),
        rows.len() <= crate::arith::MAX_ROWS,
    ensures
        final(out)@ == old(out)@ + Cutting::chunks(rows@, marks@, first as int, end as int),
{
    let mut r: usize = first;
    let ghost total = old(out)@ + Cutting::chunks(rows@, marks@, first as int, end as int);
    while r < end
        invariant
            first <= r <= end <= rows.len(),
            marks.len() == rows.len(),
            rows.len() <= crate::arith::MAX_ROWS,
            out@ + Cutting::chunks(rows@, marks@, r as int, end as int) == total,
        decreases end - r,
    {
        let limit: usize = if end - r > TILE { r + TILE } else { end };
        let mut next: usize = r;
        while next < limit && marks[next] == 0
            invariant
                r <= next <= limit <= end <= marks.len(),
                next_cut(marks@, r as int, limit as int) == next_cut(marks@, next as int, limit as int),
            decreases limit - next,
        {
            next = next + 1;
        }
        if next < limit {
            next = next + 1;
        }
        proof {
            lemma_next_cut(marks@, r as int, limit as int);
            assert(next == next_cut(marks@, r as int, limit as int));
        }
        let ghost quad = seq![
            r as u32,
            (next - r) as u32,
            rows[r as int].slot as u32,
            marks[next - 1],
        ];
        let ghost before = out@;
        out.push(r as u32);
        out.push((next - r) as u32);
        out.push(rows[r].slot as u32);
        out.push(marks[next - 1]);
        proof {
            assert(out@ =~= before + quad);
            assert(out@ + Cutting::chunks(rows@, marks@, next as int, end as int) =~= before + (quad
                + Cutting::chunks(rows@, marks@, next as int, end as int)));
        }
        r = next;
    }
    assert(out@ =~= total);
}

fn push_quad(out: &mut Vec<u32>, marks: &Vec<u32>, first: usize, end: usize)
    requires
        first <= end <= marks.len(),
        marks.len() <= crate::arith::MAX_ROWS,
    ensures
        final(out)@ == old(out)@ + Cutting::cut_quad(marks@, first as int, end as int),
{
    let mut pairs: Vec<u32> = Vec::new();
    let ghost want = Cutting::marked(marks@, first as int, end as int);
    let mut r: usize = first;
    while r < end && pairs.len() < 4
        invariant
            first <= r <= end <= marks.len(),
            marks.len() <= crate::arith::MAX_ROWS,
            pairs.len() <= 4,
            pairs.len() % 2 == 0,
            pairs@ + Cutting::marked(marks@, r as int, end as int) == want,
        decreases end - r,
    {
        if marks[r] != 0 {
            let ghost before = pairs@;
            pairs.push(r as u32);
            pairs.push(marks[r]);
            proof {
                let two = seq![r as u32, marks[r as int]];
                assert(pairs@ =~= before + two);
                assert(pairs@ + Cutting::marked(marks@, r + 1, end as int) =~= before + (two
                    + Cutting::marked(marks@, r + 1, end as int)));
            }
        }
        r = r + 1;
    }
    let ghost filled = pairs@;
    let ghost rest = Cutting::marked(marks@, r as int, end as int);
    while pairs.len() < 4
        invariant
            filled.len() <= pairs.len() <= 4,
            pairs@ == Seq::new(pairs.len() as nat, |i: int| if i < filled.len() { filled[i] } else { 0u32 }),
        decreases 4 - pairs.len(),
    {
        let ghost n = pairs.len() as int;
        let ghost before = pairs@;
        pairs.push(0);
        assert(pairs@ =~= Seq::new(
            (n + 1) as nat,
            |i: int| if i < filled.len() { filled[i] } else { 0u32 },
        ));
    }
    proof {
        assert(want == filled + rest);
        if filled.len() < 4 {
            assert(rest.len() == 0);
        }
        assert(pairs@ =~= Cutting::cut_quad(marks@, first as int, end as int));
    }
    out.append(&mut pairs);
}

fn push_bounds(out: &mut Vec<u32>, rows: &Vec<Row>, first: usize, end: usize)
    requires
        first < end <= rows.len(),
        end == seg_end(rows@, first as int),
        first == 0 || rows[first - 1].slot != rows[first as int].slot,
        old(out)@ == Cutting::bounds(rows@).take(2 * first),
    ensures
        final(out)@ == Cutting::bounds(rows@).take(2 * end),
{
    proof {
        lemma_seg_end(rows@, first as int);
    }
    let ghost all = Cutting::bounds(rows@);
    let mut r: usize = first;
    while r < end
        invariant
            first <= r <= end <= rows.len(),
            first == 0 || rows[first - 1].slot != rows[first as int].slot,
            end == seg_end(rows@, first as int),
            forall|i: int| first <= i < end ==> (#[trigger] rows[i]).slot == rows[first as int].slot,
            forall|i: int| first <= i < end ==> #[trigger] seg_end(rows@, i) == end,
            all == Cutting::bounds(rows@),
            out@ == all.take(2 * r),
        decreases end - r,
    {
        proof {
            lemma_seg_start(rows@, first as int, r as int);
            assert(seg_end(rows@, r as int) == end);
            assert(all[2 * r] == seg_start(rows@, r as int) as u32);
            assert(all[2 * r + 1] == seg_end(rows@, r as int) as u32);
        }
        out.push(first as u32);
        out.push(end as u32);
        proof {
            assert(out@ =~= all.take(2 * (r + 1)));
        }
        r = r + 1;
    }
}

/// The tables while they grow.
struct Lists {
    spans: Vec<u32>,
    chunks: Vec<u32>,
    bounds: Vec<u32>,
    tiles: Vec<u32>,
    decode_rows: Vec<u32>,
    long_decode_tiles: Vec<u32>,
    checkpoint_spans: Vec<u32>,
}

impl Lists {
    spec fn tables(&self) -> Tables {
        Tables {
            spans: self.spans@,
            chunks: self.chunks@,
            tiles: self.tiles@,
            decode_rows: self.decode_rows@,
            long_decode_tiles: self.long_decode_tiles@,
            checkpoint_spans: self.checkpoint_spans@,
        }
    }
}

impl Qwen35 {
    /// The end of the grouped-decode-free part of a sequence.
    fn long_from(&self, rows: &Vec<Row>, first: usize, end: usize) -> (r: usize)
        requires
            first <= end <= rows.len(),
        ensures
            first <= r <= end,
            r == if self.graph.splash {
                Cutting::long_from(rows@, self.graph.lanes.long_decode as int, first as int, end as int)
            } else {
                end as int
            },
    {
        if !self.graph.splash {
            return end;
        }
        let bound: usize = self.graph.lanes.long_decode;
        let mut long: usize = first;
        while long < end && (rows[long].position as u64 + 1) < bound as u64
            invariant
                first <= long <= end <= rows.len(),
                Cutting::long_from(rows@, bound as int, first as int, end as int) == Cutting::long_from(
                    rows@,
                    bound as int,
                    long as int,
                    end as int,
                ),
            decreases end - long,
        {
            long = long + 1;
        }
        long
    }

    /// Append the tables of the sequence `first..end`.
    fn cut_segment(
        &self,
        lists: &mut Lists,
        rows: &Vec<Row>,
        marks: &Vec<u32>,
        first: usize,
        end: usize,
        pinned: bool,
    )
        requires
            self.wf(),
            first < end <= rows.len(),
            end == seg_end(rows@, first as int),
            first == 0 || rows[first - 1].slot != rows[first as int].slot,
            slots_valid(self.slots@, rows@),
            marks.len() == rows.len(),
            rows.len() <= crate::arith::MAX_ROWS,
            pinned == self.cutting(rows@, marks@).pinned,
            old(lists).bounds@ == Cutting::bounds(rows@).take(2 * first),
        ensures
            final(lists).bounds@ == Cutting::bounds(rows@).take(2 * end),
            final(lists).tables() == old(lists).tables().join(
                self.cutting(rows@, marks@).segment(
                    first as int,
                    old(lists).chunks.len() as int / 4,
                ),
            ),
    {
        let ghost cut = self.cutting(rows@, marks@);
        let ghost here = cut.segment(first as int, lists.chunks.len() as int / 4);
        let slot: usize = rows[first].slot;
        let mut quad = list4(
            first as u32,
            (end - first) as u32,
            slot as u32,
            (lists.chunks.len() / 4) as u32,
        );
        lists.spans.append(&mut quad);
        push_quad(&mut lists.checkpoint_spans, marks, first, end);
        push_bounds(&mut lists.bounds, rows, first, end);
        if end - first >= APPEND_ROWS || (pinned && (rows[first].position as usize)
            < self.slots[slot].prefill_end) {
            assert(cut.appends(first as int));
            push_chunks(&mut lists.chunks, rows, marks, first, end);
            push_tiles(&mut lists.tiles, first, end, TILE);
            assert(lists.decode_rows@ =~= old(lists).decode_rows@ + here.decode_rows);
            assert(lists.long_decode_tiles@ =~= old(lists).long_decode_tiles@ + here.long_decode_tiles);
        } else {
            assert(!cut.appends(first as int));
            let long: usize = self.long_from(rows, first, end);
            push_rows(&mut lists.decode_rows, first, long);
            push_tiles(&mut lists.long_decode_tiles, long, end, 8);
            assert(lists.chunks@ =~= old(lists).chunks@ + here.chunks);
            assert(lists.tiles@ =~= old(lists).tiles@ + here.tiles);
        }
    }

    /// Cut the rows of a tick into the tables of a plan.
    fn tables(&self, rows: Vec<Row>, selected: Vec<usize>, marks: Vec<u32>, taken: Vec<Capture>) -> (r: Plan)
        requires
            self.wf(),
            slots_valid(self.slots@, rows@),
            marks.len() == rows.len(),
            0 < rows.len() <= crate::arith::MAX_ROWS,
        ensures
            r.rows@ == rows@,
            r.selected@ == selected@,
            r.checkpoint_rows@ == marks@,
            r.checkpoints@ == taken@,
            r.bounds@ == Cutting::bounds(rows@),
            r.tables() == self.cutting(rows@, marks@).tables(0, 0),
    {
        let m: usize = rows.len();
        let ghost cut = self.cutting(rows@, marks@);
        let ghost total = cut.tables(0, 0);
        let pinned = !self.graph.verifying && (self.graph.splash || self.graph.bonsai.is_some()
            || self.graph.stable_affine_contract());
        let mut lists = Lists {
            spans: Vec::new(),
            chunks: Vec::new(),
            bounds: Vec::new(),
            tiles: Vec::new(),
            decode_rows: Vec::new(),
            long_decode_tiles: Vec::new(),
            checkpoint_spans: Vec::new(),
        };
        let mut first: usize = 0;
        proof {
            assert(lists.bounds@ =~= Cutting::bounds(rows@).take(0));
            assert(lists.tables() == Tables::none());
            total.lemma_join(total, total);
        }
        while first < m
            invariant
                first <= m,
                m == rows.len(),
                marks.len() == m,
                m <= crate::arith::MAX_ROWS,
                self.wf(),
                slots_valid(self.slots@, rows@),
                cut == self.cutting(rows@, marks@),
                pinned == cut.pinned,
                0 < first < m ==> rows[first - 1].slot != rows[first as int].slot,
                lists.chunks.len() % 4 == 0,
                lists.bounds@ == Cutting::bounds(rows@).take(2 * first),
                lists.tables().join(cut.tables(first as int, lists.chunks.len() as int / 4)) == total,
            decreases m - first,
        {
            let slot: usize = rows[first].slot;
            let mut end: usize = first + 1;
            while end < m && rows[end].slot == slot
                invariant
                    first < end <= m,
                    m == rows.len(),
                    slot == rows[first as int].slot,
                    rows[end - 1].slot == slot,
                    seg_end(rows@, first as int) == seg_end(rows@, end - 1),
                decreases m - end,
            {
                end = end + 1;
            }
            let ghost base = lists.chunks.len() as int / 4;
            let ghost before = lists.tables();
            let ghost here = cut.segment(first as int, base);
            let ghost rest = cut.tables(end as int, base + here.chunks.len() as int / 4);
            proof {
                lemma_seg_end(rows@, first as int);
                lemma_chunks_quads(rows@, marks@, first as int, end as int);
                assert(cut.tables(first as int, base) == here.join(rest));
            }
            self.cut_segment(&mut lists, &rows, &marks, first, end, pinned);
            proof {
                before.lemma_join(here, rest);
                assert(lists.chunks@ == before.chunks + here.chunks);
                assert(lists.chunks.len() as int / 4 == base + here.chunks.len() as int / 4);
            }
            first = end;
        }
        proof {
            lists.tables().lemma_join(total, total);
            assert(cut.tables(m as int, lists.chunks.len() as int / 4) == Tables::none());
            assert(lists.bounds@ =~= Cutting::bounds(rows@));
        }
        Plan {
            rows,
            selected,
            spans: lists.spans,
            chunks: lists.chunks,
            bounds: lists.bounds,
            tiles: lists.tiles,
            decode_rows: lists.decode_rows,
            long_decode_tiles: lists.long_decode_tiles,
            checkpoint_rows: marks,
            checkpoint_spans: lists.checkpoint_spans,
            checkpoints: taken,
        }
    }

    /// What a sound tick's plan is.
    pub open spec fn planned(&self, rows: Seq<Row>, selected: Seq<usize>, plan: Plan) -> bool {
        let c = captures(
            self.slots@,
            self.graph.verifying,
            rows,
            self.checkpoints(),
            rows.len() as int,
        );
        &&& plan.rows@ == rows
        &&& plan.selected@ == selected
        &&& plan.checkpoint_rows@ == c.rows
        &&& taken_view(plan.checkpoints@) == c.taken
        &&& plan.bounds@ == Cutting::bounds(rows)
        &&& plan.tables() == self.cutting(rows, c.rows).tables(0, 0)
    }

    /// Plan one tick whose rows have their pages. Destinations of saved
    /// prefixes are reserved; what they held is handed out for spilling.
    pub fn plan_execution(&mut self, rows: Vec<Row>, selected: Vec<usize>) -> (r: Result<
        (Plan, Vec<Released>),
        MetalError,
    >)
        requires
            old(self).wf(),
        ensures
            final(self).wf(),
            only_cache_changes(*final(self), *old(self)),
            match old(self).tick_fault(rows@, selected@) {
                Some(f) => r == Err::<(Plan, Vec<Released>), MetalError>(MetalError::Model(f))
                    && final(self).cache == old(self).cache,
                None => {
                    let c = captures(
                        old(self).slots@,
                        old(self).graph.verifying,
                        rows@,
                        old(self).checkpoints(),
                        rows.len() as int,
                    );
                    &&& r matches Ok(out)
                    &&& old(self).planned(rows@, selected@, out.0)
                    &&& final(self).checkpoints() == c.cache
                    &&& released_view(out.1@) == c.released
                    &&& forall|i: int|
                        0 <= i < out.0.checkpoints.len() ==> (#[trigger] out.0.checkpoints[i]).index
                            < old(self).cache.len() && out.0.checkpoints[i].slot < old(self).slots.len()
                },
            },
    {
        if let Err(e) = self.check_rows(&rows, &selected) {
            return Err(e);
        }
        proof {
            assert forall|i: int| 0 <= i < rows.len() implies (#[trigger] rows[i]).slot < self.slots.len()
                && rows[i].position < self.graph.context by {
                lemma_rows_sound(self.slots@, self.graph.vocab, self.graph.context, rows@, 0, i);
            }
        }
        let list = self.capture_rows(&rows);
        let plan = self.tables(rows, selected, list.rows, list.taken);
        Ok((plan, list.released))
    }
}

/// Chunk quads that follow one another from `first` to `end`, none longer
/// than a tile, none crossing a saved prefix, each carrying its last marker.
pub open spec fn chunks_follow(chunks: Seq<u32>, marks: Seq<u32>, first: int, end: int) -> bool
    decreases chunks.len(),
{
    if chunks.len() == 0 {
        first == end
    } else {
        let next = first + chunks[1];
        &&& chunks.len() >= 4
        &&& chunks[0] == first
        &&& 0 < chunks[1] <= TILE
        &&& next <= end
        &&& forall|i: int| first <= i < next - 1 ==> #[trigger] marks[i] == 0
        &&& chunks[3] == marks[next - 1]
        &&& chunks_follow(chunks.skip(4), marks, next, end)
    }
}

/// Recurrent chunks cover an appended sequence without gap or overlap, and a
/// saved prefix always ends its chunk.
pub proof fn chunks_cover_the_sequence(rows: Seq<Row>, marks: Seq<u32>, first: int, end: int)
    requires
        0 <= first <= end <= marks.len(),
        end <= u32::MAX,
    ensures
        chunks_follow(Cutting::chunks(rows, marks, first, end), marks, first, end),
    decreases end - first,
{
    if first < end {
        let limit = min(first + TILE, end);
        lemma_next_cut(marks, first, limit);
        let next = next_cut(marks, first, limit);
        let c = Cutting::chunks(rows, marks, first, end);
        chunks_cover_the_sequence(rows, marks, next, end);
        assert(c.skip(4) =~= Cutting::chunks(rows, marks, next, end));
    }
}

/// Saved prefixes take distinct entries that were free before, reserve them,
/// and leave every other entry as it was: a restore in flight never loses its
/// destination.
pub proof fn captures_take_distinct_free_entries(
    slots: Seq<Slot>,
    verifying: bool,
    rows: Seq<Row>,
    cache: Seq<Saved>,
    n: int,
)
    requires
        0 <= n <= rows.len(),
    ensures
        ({
            let c = captures(slots, verifying, rows, cache, n);
            &&& c.rows.len() == n
            &&& c.cache.len() == cache.len()
            &&& c.taken.len() == c.released.len()
            &&& forall|i: int|
                0 <= i < c.taken.len() ==> {
                    let k = (#[trigger] c.taken[i]).index;
                    &&& 0 <= k < cache.len()
                    &&& !cache[k].reserved
                    &&& c.cache[k] == emptied(cache[k], true)
                    &&& c.released[i] == (k, cache[k])
                }
            &&& forall|i: int, j: int|
                0 <= i < j < c.taken.len() ==> (#[trigger] c.taken[i]).index != (
                #[trigger] c.taken[j]).index
            &&& forall|k: int|
                0 <= k < cache.len() && (forall|i: int|
                    0 <= i < c.taken.len() ==> (#[trigger] c.taken[i]).index != k)
                    ==> #[trigger] c.cache[k] == cache[k]
        }),
    decreases n,
{
    if n > 0 {
        captures_take_distinct_free_entries(slots, verifying, rows, cache, n - 1);
        let before = captures(slots, verifying, rows, cache, n - 1);
        let after = captures(slots, verifying, rows, cache, n);
        destination_is_least(before.cache, before.cache.len() as int);
        if after.taken.len() > before.taken.len() {
            let k = after.taken.last().index;
            assert(!before.cache[k].reserved);
            assert forall|i: int| 0 <= i < before.taken.len() implies (#[trigger] before.taken[i]).index
                != k by {
                assert(before.cache[before.taken[i].index].reserved);
            }
            assert(before.cache[k] == cache[k]);
            assert forall|i: int| 0 <= i < after.taken.len() implies {
                let k = (#[trigger] after.taken[i]).index;
                &&& 0 <= k < cache.len()
                &&& !cache[k].reserved
                &&& after.cache[k] == emptied(cache[k], true)
                &&& after.released[i] == (k, cache[k])
            } by {
                if i < before.taken.len() {
                    assert(after.taken[i] == before.taken[i]);
                    assert(after.released[i] == before.released[i]);
                }
            }
            assert forall|i: int, j: int| 0 <= i < j < after.taken.len() implies (
            #[trigger] after.taken[i]).index != (#[trigger] after.taken[j]).index by {
                assert(after.taken[i] == before.taken[i]);
                if j < before.taken.len() {
                    assert(after.taken[j] == before.taken[j]);
                }
            }
            assert forall|x: int|
                0 <= x < cache.len() && (forall|i: int|
                    0 <= i < after.taken.len() ==> (#[trigger] after.taken[i]).index != x) implies
                #[trigger] after.cache[x] == cache[x] by {
                assert(after.taken[after.taken.len() - 1].index != x);
                assert forall|i: int| 0 <= i < before.taken.len() implies (
                #[trigger] before.taken[i]).index != x by {
                    assert(after.taken[i] == before.taken[i]);
                }
            }
        }
    }
}

proof fn lemma_marked_nonempty(marks: Seq<u32>, r: int, end: int) -> (w: int)
    requires
        0 <= r,
        end <= marks.len(),
        Cutting::marked(marks, r, end).len() > 0,
    ensures
        r <= w < end,
        marks[w] != 0,
        Cutting::marked(marks, r, end).len() == 2 + Cutting::marked(marks, w + 1, end).len(),
    decreases end - r,
{
    if marks[r] != 0 {
        r
    } else {
        lemma_marked_nonempty(marks, r + 1, end)
    }
}

proof fn lemma_mark_is_cut(
    slots: Seq<Slot>,
    verifying: bool,
    rows: Seq<Row>,
    cache: Seq<Saved>,
    n: int,
    r: int,
)
    requires
        0 <= r < n <= rows.len(),
        captures(slots, verifying, rows, cache, n).rows[r] != 0,
    ensures
        ends_cut(slots, rows, r),
    decreases n,
{
    captures_take_distinct_free_entries(slots, verifying, rows, cache, n);
    captures_take_distinct_free_entries(slots, verifying, rows, cache, n - 1);
    if r < n - 1 {
        lemma_mark_is_cut(slots, verifying, rows, cache, n - 1, r);
    }
}

/// A sequence saves at most two prefixes in one tick, so its pairs always fit
/// their quad.
pub proof fn at_most_two_prefixes_per_sequence(
    slots: Seq<Slot>,
    vocab: usize,
    context: usize,
    verifying: bool,
    rows: Seq<Row>,
    cache: Seq<Saved>,
    first: int,
)
    requires
        0 <= first < rows.len(),
        context <= MAX_CONTEXT,
        first_fault(slots, vocab, context, rows, 0) is None,
        slots[rows[first].slot as int].cuts.len() <= 2,
    ensures
        Cutting::marked(
            captures(slots, verifying, rows, cache, rows.len() as int).rows,
            first,
            seg_end(rows, first),
        ).len() <= 4,
{
    let n = rows.len() as int;
    let marks = captures(slots, verifying, rows, cache, n).rows;
    let end = seg_end(rows, first);
    captures_take_distinct_free_entries(slots, verifying, rows, cache, n);
    lemma_seg_end(rows, first);
    if Cutting::marked(marks, first, end).len() > 4 {
        let a = lemma_marked_nonempty(marks, first, end);
        let b = lemma_marked_nonempty(marks, a + 1, end);
        let c = lemma_marked_nonempty(marks, b + 1, end);
        let slot = rows[first].slot;
        let cuts = slots[slot as int].cuts@;
        lemma_mark_is_cut(slots, verifying, rows, cache, n, a);
        lemma_mark_is_cut(slots, verifying, rows, cache, n, b);
        lemma_mark_is_cut(slots, verifying, rows, cache, n, c);
        lemma_rows_sound(slots, vocab, context, rows, 0, a);
        lemma_rows_sound(slots, vocab, context, rows, 0, b);
        lemma_rows_sound(slots, vocab, context, rows, 0, c);
        assert(rows[a].slot == slot && rows[b].slot == slot && rows[c].slot == slot);
        lemma_count_slot(rows, slot, a, b);
        lemma_count_slot(rows, slot, b, c);
        let x = (rows[a].position + 1) as usize;
        let y = (rows[b].position + 1) as usize;
        let z = (rows[c].position + 1) as usize;
        assert(x < y < z);
        let i = choose|i: int| 0 <= i < cuts.len() && cuts[i] == x;
        let j = choose|j: int| 0 <= j < cuts.len() && cuts[j] == y;
        let k = choose|k: int| 0 <= k < cuts.len() && cuts[k] == z;
        assert(false);
    }
}

proof fn lemma_chunk_count(rows: Seq<Row>, marks: Seq<u32>, first: int, end: int)
    requires
        0 <= first <= end,
    ensures
        Cutting::chunks(rows, marks, first, end).len() <= 4 * (end - first),
    decreases end - first,
{
    if first < end {
        let next = next_cut(marks, first, min(first + TILE, end));
        if first < next <= end {
            lemma_chunk_count(rows, marks, next, end);
        }
    }
}

proof fn lemma_long_from(rows: Seq<Row>, bound: int, first: int, end: int)
    requires
        first <= end,
    ensures
        first <= Cutting::long_from(rows, bound, first, end) <= end,
    decreases end - first,
{
    if first < end && rows[first].position + 1 < bound {
        lemma_long_from(rows, bound, first + 1, end);
    }
}

/// Every table entry points at rows `first..m`, and no table has more entries
/// than there are rows.
pub open spec fn tables_inside(t: Tables, first: int, m: int) -> bool {
    &&& forall|i: int| 0 <= i < t.decode_rows.len() ==> first <= #[trigger] t.decode_rows[i] < m
    &&& tiles_inside(t.tiles, first, m)
    &&& tiles_inside(t.long_decode_tiles, first, m)
    &&& t.decode_rows.len() + t.tiles.len() as int / 2 + t.long_decode_tiles.len() as int / 2 <= m - first
    &&& t.spans.len() % 4 == 0
    &&& t.spans.len() <= 4 * (m - first)
    &&& t.chunks.len() % 4 == 0
    &&& t.chunks.len() <= 4 * (m - first)
}

/// A plan's tables never point outside its rows.
pub proof fn tables_stay_inside(cut: Cutting, first: int, base: int)
    requires
        0 <= first <= cut.rows.len() <= u32::MAX,
    ensures
        tables_inside(cut.tables(first, base), first, cut.rows.len() as int),
    decreases cut.rows.len() - first,
{
    let m = cut.rows.len() as int;
    if first < m {
        lemma_seg_end(cut.rows, first);
        let end = seg_end(cut.rows, first);
        let here = cut.segment(first, base);
        let next = base + here.chunks.len() as int / 4;
        let rest = cut.tables(end, next);
        tables_stay_inside(cut, end, next);
        lemma_chunk_count(cut.rows, cut.marks, first, end);
        lemma_chunks_quads(cut.rows, cut.marks, first, end);
        lemma_long_from(cut.rows, cut.long_decode as int, first, end);
        let long = if cut.splash {
            Cutting::long_from(cut.rows, cut.long_decode as int, first, end)
        } else {
            end
        };
        lemma_tiles_inside(first, end, TILE as int);
        lemma_tiles_inside(long, end, 8);
        assert(tiles_inside(here.tiles, first, end));
        assert(tiles_inside(here.long_decode_tiles, first, end));
        lemma_tiles_join(here.tiles, rest.tiles, first, end, m);
        lemma_tiles_join(here.long_decode_tiles, rest.long_decode_tiles, first, end, m);
        let all = here.join(rest);
        assert(cut.tables(first, base) == all);
        assert forall|i: int| 0 <= i < all.decode_rows.len() implies first
            <= #[trigger] all.decode_rows[i] < m by {
            if i >= here.decode_rows.len() {
                assert(all.decode_rows[i] == rest.decode_rows[i - here.decode_rows.len()]);
            }
        }
    }
}

/// On how many routes a row stands: appended in a tile, decoded alone, or
/// decoded in a group.
pub open spec fn routes(t: Tables, r: int) -> int {
    holding(t.tiles, r) + listed(t.decode_rows, r) + holding(t.long_decode_tiles, r)
}

/// Every row of a tick takes exactly one route: appended in a tile, decoded
/// alone, or decoded in a group. No row outside the tick takes any.
pub proof fn every_row_takes_one_route(cut: Cutting, first: int, base: int)
    requires
        0 <= first <= cut.rows.len() <= u32::MAX,
    ensures
        ({
            let t = cut.tables(first, base);
            let m = cut.rows.len();
            &&& tile_rows(t.tiles) + t.decode_rows.len() + tile_rows(t.long_decode_tiles) == m - first
            &&& forall|r: int| #[trigger] routes(t, r) == if first <= r < m { 1int } else { 0 }
        }),
    decreases cut.rows.len() - first,
{
    if first < cut.rows.len() {
        lemma_seg_end(cut.rows, first);
        let m = cut.rows.len();
        let end = seg_end(cut.rows, first);
        let here = cut.segment(first, base);
        let next = base + here.chunks.len() as int / 4;
        let rest = cut.tables(end, next);
        every_row_takes_one_route(cut, end, next);
        lemma_long_from(cut.rows, cut.long_decode as int, first, end);
        let long = if cut.splash {
            Cutting::long_from(cut.rows, cut.long_decode as int, first, end)
        } else {
            end
        };
        lemma_tiles_inside(first, end, TILE as int);
        lemma_tiles_inside(long, end, 8);
        lemma_tile_rows(first, end, TILE as int);
        lemma_tile_rows(long, end, 8);
        lemma_tile_rows_join(here.tiles, rest.tiles);
        lemma_tile_rows_join(here.long_decode_tiles, rest.long_decode_tiles);
        let all = here.join(rest);
        assert(cut.tables(first, base) == all);
        assert forall|r: int| #[trigger]
            routes(all, r) == if first <= r < m { 1int } else { 0 } by {
            lemma_holding(first, end, TILE as int, r);
            lemma_holding(long, end, 8, r);
            lemma_listed(first, long - first, r);
            lemma_holding_join(here.tiles, rest.tiles, r);
            lemma_listed_join(here.decode_rows, rest.decode_rows, r);
            lemma_holding_join(here.long_decode_tiles, rest.long_decode_tiles, r);
            assert(routes(rest, r) == if end <= r < m { 1int } else { 0 });
        }
    }
}

proof fn lemma_chunks_hold(rows: Seq<Row>, marks: Seq<u32>, first: int, end: int, r: int)
    requires
        0 <= first <= end <= u32::MAX,
    ensures
        within(Cutting::chunks(rows, marks, first, end), 0, r) == if first <= r < end { 1int } else { 0 },
    decreases end - first,
{
    if first < end {
        let limit = min(first + TILE, end);
        lemma_next_cut(marks, first, limit);
        let next = next_cut(marks, first, limit);
        let c = Cutting::chunks(rows, marks, first, end);
        assert(c.skip(4) =~= Cutting::chunks(rows, marks, next, end));
        lemma_chunks_hold(rows, marks, next, end, r);
    }
}

/// Every row of a tick lies in the span of exactly one sequence. It lies in
/// one recurrent chunk where it is appended, and in none where it is decoded.
pub proof fn every_row_lies_in_one_sequence(cut: Cutting, first: int, base: int)
    requires
        0 <= first <= cut.rows.len() <= u32::MAX,
    ensures
        ({
            let t = cut.tables(first, base);
            forall|r: int| #[trigger]
                within(t.spans, 0, r) == (if first <= r < cut.rows.len() { 1int } else { 0 }) && within(
                    t.chunks,
                    0,
                    r,
                ) == holding(t.tiles, r)
        }),
    decreases cut.rows.len() - first,
{
    if first < cut.rows.len() {
        lemma_seg_end(cut.rows, first);
        let m = cut.rows.len();
        let end = seg_end(cut.rows, first);
        let here = cut.segment(first, base);
        let next = base + here.chunks.len() as int / 4;
        let rest = cut.tables(end, next);
        every_row_lies_in_one_sequence(cut, end, next);
        lemma_chunks_quads(cut.rows, cut.marks, first, end);
        lemma_tiles_inside(first, end, TILE as int);
        let all = here.join(rest);
        assert(cut.tables(first, base) == all);
        assert forall|r: int| #[trigger]
            within(all.spans, 0, r) == (if first <= r < m { 1int } else { 0 }) && within(all.chunks, 0, r)
                == holding(all.tiles, r) by {
            lemma_within_join(here.spans, rest.spans, 0, r);
            lemma_within_join(here.chunks, rest.chunks, 0, r);
            lemma_holding_join(here.tiles, rest.tiles, r);
            lemma_holding(first, end, TILE as int, r);
            lemma_chunks_hold(cut.rows, cut.marks, first, end, r);
            assert(here.spans.skip(4) =~= Seq::<u32>::empty());
            assert(within(here.spans.skip(4), 0, r) == 0);
            assert(within(rest.spans, 0, r) == if end <= r < m { 1int } else { 0 });
        }
    }
}

} // verus!
