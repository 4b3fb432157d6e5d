//! From a row plan to a tick: uploads, lengths, roles and images.
use vstd::prelude::*;
use crate::arith::{lemma_product_bound, max, MAX_ROWS};
use crate::program::RowSpan;
use crate::qwen35::attention::Load;
use crate::qwen35::forward::{join_roles, role_spans, role_spans_cover, Tick};
use crate::qwen35::geometry::Geometry;
use crate::qwen35::graph::{Graph, CHUNK, MAX_CONTEXT};
use crate::qwen35::multimodal::SlotImage;
use crate::rows::{tiles_inside, Row, TILE};
use crate::qwen35::plan::{slots_valid, tables_inside, tables_stay_inside, Plan};
use crate::qwen35::state::{Qwen35, Slot};

verus! {

/// The last row that a row attends to.
pub open spec fn row_limit(slots: Seq<Slot>, r: Row) -> u32 {
    match slots[r.slot as int].mm {
        Some(m) => m.limit_of(r.position as int),
        None => r.position,
    }
}

/// The longest visible cache of the listed rows, at least one.
pub open spec fn longest(rows: Seq<Row>, list: Seq<u32>) -> int
    decreases list.len(),
{
    if list.len() == 0 {
        1
    } else {
        max(longest(rows, list.drop_last()), rows[list.last() as int].position + 1)
    }
}

pub open spec fn longest_row(rows: Seq<Row>) -> int
    decreases rows.len(),
{
    if rows.len() == 0 {
        1
    } else {
        max(longest_row(rows.drop_last()), rows.last().position + 1)
    }
}

/// The longest visible cache over the last rows of the first `n` tiles.
pub open spec fn longest_tile(slots: Seq<Slot>, rows: Seq<Row>, tiles: Seq<u32>, n: int) -> int
    decreases n,
{
    if n <= 0 {
        1
    } else {
        max(
            longest_tile(slots, rows, tiles, n - 1),
            row_limit(slots, rows[tiles[2 * (n - 1)] + tiles[2 * (n - 1) + 1] - 1]) + 1,
        )
    }
}

/// Prompt rows take the pinned 512-row arithmetic, all others stand alone.
pub open spec fn role(slots: Seq<Slot>, verifying: bool, r: Row) -> usize {
    if !verifying && r.position < slots[r.slot as int].prefill_end { CHUNK } else { 1 }
}

pub open spec fn roles(slots: Seq<Slot>, verifying: bool, rows: Seq<Row>) -> Seq<usize> {
    rows.map_values(|r: Row| role(slots, verifying, r))
}

/// The encoded images of one slot.
pub open spec fn slot_images(slot: usize, s: Slot) -> Seq<SlotImage> {
    match s.mm {
        None => Seq::empty(),
        Some(m) => Seq::new(
            m.images@.len(),
            |i: int| SlotImage {
                slot,
                offset: m.keys[i].offset,
                rows: (m.keys[i].nx * m.keys[i].ny) as usize,
                embd: m.images[i],
            },
        ),
    }
}

/// The encoded images of the first `n` slots, in slot order.
pub open spec fn live_images(slots: Seq<Slot>, n: int) -> Seq<SlotImage>
    decreases n,
{
    if n <= 0 {
        Seq::empty()
    } else {
        live_images(slots, n - 1) + slot_images((n - 1) as usize, slots[n - 1])
    }
}

pub open spec fn all_text(slots: Seq<Slot>) -> bool {
    forall|i: int| 0 <= i < slots.len() ==> (#[trigger] slots[i]).mm is None
}

/// Some sequence of the plan has at least `TILE` rows.
pub open spec fn any_wide(spans: Seq<u32>) -> bool {
    exists|k: int| 0 <= k < spans.len() as int / 4 && #[trigger] spans[4 * k + 1] >= TILE
}

/// A plan whose tables point at its own rows.
pub open spec fn plan_wf(slots: Seq<Slot>, plan: Plan) -> bool {
    &&& 0 < plan.rows.len() <= MAX_ROWS
    &&& slots_valid(slots, plan.rows@)
    &&& forall|i: int| 0 <= i < plan.rows.len() ==> (#[trigger] plan.rows[i]).position < MAX_CONTEXT
    &&& tables_inside(plan.tables(), 0, plan.rows.len() as int)
    &&& forall|i: int|
        0 <= i < plan.checkpoints.len() ==> (#[trigger] plan.checkpoints[i]).slot < slots.len()
            && plan.checkpoints[i].index < 2 * slots.len()
}

impl Graph {
    /// The borrowed storage covers `tiles` append tiles and `long_tiles`
    /// grouped decode tiles, whatever their lengths.
    pub open spec fn storage_covers(&self, tiles: int, long_tiles: int) -> bool {
        let s = self.scratch;
        let heads = self.geometry.heads;
        let kv_heads = self.geometry.kv_heads;
        let parts = self.lanes.decode_parts;
        &&& !self.mlx || self.splash ==> s.prepared.len >= tiles * (heads * 4 * (if self.splash {
            64int
        } else {
            32
        }) * 256 * (if self.strict_attention() { 4int } else { 2 }))
        &&& self.splash ==> s.gemm.len >= self.query_bytes(tiles)
        &&& long_tiles > 0 ==> {
            &&& self.splash
            &&& s.gemm.len >= long_tiles * (8 * heads * 256 * 2)
            &&& s.prepared.len >= long_tiles * (kv_heads * parts * 64 * 256 * 2)
            &&& s.attn_parts.len >= long_tiles * (8 * heads * parts * 258 * 4)
        }
    }

    /// Whether the borrowed storage covers a tick's tiles.
    pub fn storage_fits(&self, tiles: usize, long_tiles: usize) -> (r: bool)
        requires
            self.wf(),
            tiles <= MAX_ROWS,
            long_tiles <= MAX_ROWS,
        ensures
            r == self.storage_covers(tiles as int, long_tiles as int),
    {
        let heads: u64 = self.geometry.heads as u64;
        let kv_heads: u64 = self.geometry.kv_heads as u64;
        let parts: u64 = self.lanes.decode_parts as u64;
        let n: u64 = tiles as u64;
        let long: u64 = long_tiles as u64;
        let side: u64 = if self.splash { 64 } else { 32 };
        let element: u64 = if self.geometry.moe() { 4 } else { 2 };
        let tile: u64 = heads * 4 * side * 256 * element;
        proof {
            lemma_product_bound(heads as int, parts as int, 24, 0x1000);
            lemma_product_bound(kv_heads as int, parts as int, 4, 0x1000);
        }
        let split: u64 = heads * parts;
        let shared: u64 = kv_heads * parts;
        assert(8 * split * 258 * 4 == 8 * heads * parts * 258 * 4) by (nonlinear_arith)
            requires
                split == heads * parts,
        ;
        assert(shared * 64 * 256 * 2 == kv_heads * parts * 64 * 256 * 2);
        proof {
            lemma_product_bound(n as int, tile as int, 65536, 24int * 4 * 64 * 256 * 4);
            lemma_product_bound(n as int, heads * 16384, 65536, 24int * 16384);
            lemma_product_bound(long as int, 8 * heads * 256 * 2, 65536, 8int * 24 * 256 * 2);
            lemma_product_bound(long as int, shared * 64 * 256 * 2, 65536, 4int * 0x1000 * 64 * 256 * 2);
            lemma_product_bound(long as int, 8 * split * 258 * 4, 65536, 8int * 24 * 0x1000 * 258 * 4);
        }
        let s = &self.scratch;
        if (!self.mlx || self.splash) && s.prepared.len < n * tile {
            return false;
        }
        if self.splash && s.gemm.len < n * (heads * 16384) {
            return false;
        }
        long_tiles == 0 || (self.splash && s.gemm.len >= long * (8 * heads * 256 * 2) && s.prepared.len
            >= long * (shared * 64 * 256 * 2) && s.attn_parts.len >= long * (8 * split * 258 * 4))
    }

    proof fn lemma_storage(&self, load: Load)
        requires
            self.wf(),
            self.storage_covers(load.tiles as int, load.long_tiles as int),
        ensures
            self.attention_fits(load),
    {
        let t = load.tiles as int;
        let heads = self.geometry.heads as int;
        let one = heads * 1 * (if self.splash { 64int } else { 32 }) * 256 * (
        if self.strict_attention() { 4int } else { 2 });
        let four = heads * 4 * (if self.splash { 64int } else { 32 }) * 256 * (
        if self.strict_attention() { 4int } else { 2 });
        assert(one <= four);
        assert(t * one <= t * four) by (nonlinear_arith)
            requires
                0 <= t,
                one <= four,
        ;
    }
}

impl Qwen35 {
    /// The row spans that this tick's projections keep apart.
    pub open spec fn tick_spans(&self, rows: Seq<Row>, phases: Seq<usize>) -> Seq<RowSpan> {
        let g = &self.graph;
        if g.splash {
            role_spans(phases)
        } else if g.affine_prefill() || g.bonsai_prefill() || g.ternary {
            role_spans(roles(self.slots@, g.verifying, rows))
        } else {
            Seq::empty()
        }
    }

    /// The compact prompt feed-forward is qualified for pure text prompts on
    /// one affine shape.
    pub open spec fn compact_text(&self, rows: Seq<Row>, spans: Seq<RowSpan>) -> bool {
        let g = &self.graph;
        &&& g.mlx
        &&& !g.splash
        &&& g.bonsai is None
        &&& !g.verifying
        &&& g.geometry == Geometry::dense_27b()
        &&& forall|i: int| 0 <= i < spans.len() ==> (#[trigger] spans[i]).role == CHUNK
        &&& forall|i: int|
            0 <= i < rows.len() ==> self.slots[(#[trigger] rows[i]).slot as int].mm is None
    }

    /// The tick that runs `plan`. `phases` is the packed lane's phase of each
    /// row; `accepts` says which layers the compact lane takes.
    pub open spec fn tick_of(&self, plan: Plan, phases: Seq<usize>, accepts: Seq<bool>, t: Tick) -> bool {
        let rows = plan.rows@;
        let spans = self.tick_spans(rows, phases);
        &&& t.rows@ == rows
        &&& t.selected == plan.selected.len()
        &&& t.sequences == plan.spans.len() as int / 4
        &&& t.wide == any_wide(plan.spans@)
        &&& t.chunks == plan.chunks.len() as int / 4
        &&& t.load == Load {
            rows: plan.rows.len(),
            tiles: (plan.tiles.len() as int / 2) as usize,
            decode_rows: plan.decode_rows.len(),
            long_tiles: (plan.long_decode_tiles.len() as int / 2) as usize,
            decode_length: longest(rows, plan.decode_rows@) as usize,
            append_length: longest_tile(
                self.slots@,
                rows,
                plan.tiles@,
                plan.tiles.len() as int / 2,
            ) as usize,
            text_only: all_text(self.slots@),
        }
        &&& t.length == longest_row(rows)
        &&& t.images@ == live_images(self.slots@, self.slots.len() as int)
        &&& t.spans@ == spans
        &&& t.compact@ == Seq::new(
            self.graph.layers@.len(),
            |i: int| self.compact_text(rows, spans) && accepts[i],
        )
        &&& t.copies@ == Seq::new(
            plan.checkpoints@.len(),
            |i: int|
                (plan.checkpoints[i].slot, (self.slots.len() + plan.checkpoints[i].index) as usize),
        )
    }

    fn decode_length(&self, plan: &Plan) -> (r: usize)
        requires
            plan_wf(self.slots@, *plan),
        ensures
            r == longest(plan.rows@, plan.decode_rows@),
    {
        let mut best: usize = 1;
        let mut i: usize = 0;
        assert(plan.decode_rows@.take(0) =~= Seq::<u32>::empty());
        while i < plan.decode_rows.len()
            invariant
                i <= plan.decode_rows.len(),
                plan_wf(self.slots@, *plan),
                best == longest(plan.rows@, plan.decode_rows@.take(i as int)),
            decreases plan.decode_rows.len() - i,
        {
            proof {
                assert(plan.tables().decode_rows[i as int] < plan.rows.len());
                assert(plan.decode_rows@.take(i + 1).drop_last() =~= plan.decode_rows@.take(i as int));
                assert(plan.decode_rows@.take(i + 1).last() == plan.decode_rows[i as int]);
            }
            let n: usize = plan.rows[plan.decode_rows[i] as usize].position as usize + 1;
            if n > best {
                best = n;
            }
            i = i + 1;
        }
        assert(plan.decode_rows@.take(plan.decode_rows.len() as int) =~= plan.decode_rows@);
        best
    }

    fn row_length(&self, plan: &Plan) -> (r: usize)
        requires
            plan_wf(self.slots@, *plan),
        ensures
            r == longest_row(plan.rows@),
    {
        let mut best: usize = 1;
        let mut i: usize = 0;
        assert(plan.rows@.take(0) =~= Seq::<Row>::empty());
        while i < plan.rows.len()
            invariant
                i <= plan.rows.len(),
                plan_wf(self.slots@, *plan),
                best == longest_row(plan.rows@.take(i as int)),
            decreases plan.rows.len() - i,
        {
            proof {
                assert(plan.rows@.take(i + 1).drop_last() =~= plan.rows@.take(i as int));
                assert(plan.rows@.take(i + 1).last() == plan.rows[i as int]);
            }
            let n: usize = plan.rows[i].position as usize + 1;
            if n > best {
                best = n;
            }
            i = i + 1;
        }
        assert(plan.rows@.take(plan.rows.len() as int) =~= plan.rows@);
        best
    }

    /// The last row that row `r` attends to.
    pub fn limit(&self, r: Row) -> (n: u32)
        requires
            r.slot < self.slots.len(),
        ensures
            n == row_limit(self.slots@, r),
    {
        match &self.slots[r.slot].mm {
            Some(m) => m.limit(r.position as usize),
            None => r.position,
        }
    }

    fn append_length(&self, plan: &Plan) -> (r: usize)
        requires
            self.wf(),
            plan_wf(self.slots@, *plan),
        ensures
            r == longest_tile(self.slots@, plan.rows@, plan.tiles@, plan.tiles.len() as int / 2),
    {
        let n: usize = plan.tiles.len() / 2;
        let mut best: usize = 1;
        let mut k: usize = 0;
        while k < n
            invariant
                k <= n,
                n == plan.tiles.len() as int / 2,
                self.wf(),
                plan_wf(self.slots@, *plan),
                best == longest_tile(self.slots@, plan.rows@, plan.tiles@, k as int),
            decreases n - k,
        {
            proof {
                assert(tiles_inside(plan.tables().tiles, 0, plan.rows.len() as int));
                assert(plan.tables().tiles[2 * k] == plan.tiles[2 * k]);
            }
            let last: usize = plan.tiles[2 * k] as usize + plan.tiles[2 * k + 1] as usize - 1;
            let row = plan.rows[last];
            assert(self.slots[row.slot as int].wf(&self.graph));
            let limit: usize = self.limit(row) as usize;
            if limit + 1 > best {
                best = limit + 1;
            }
            k = k + 1;
        }
        best
    }

    fn row_roles(&self, rows: &Vec<Row>) -> (r: Vec<usize>)
        requires
            slots_valid(self.slots@, rows@),
        ensures
            r@ == roles(self.slots@, self.graph.verifying, rows@),
    {
        let mut out: Vec<usize> = Vec::new();
        let mut i: usize = 0;
        while i < rows.len()
            invariant
                i <= rows.len(),
                slots_valid(self.slots@, rows@),
                out@ == roles(self.slots@, self.graph.verifying, rows@).take(i as int),
            decreases rows.len() - i,
        {
            let row = rows[i];
            let prompt = !self.graph.verifying && (row.position as usize)
                < self.slots[row.slot].prefill_end;
            out.push(if prompt { CHUNK } else { 1 });
            assert(out@ =~= roles(self.slots@, self.graph.verifying, rows@).take(i + 1));
            i = i + 1;
        }
        assert(out@ =~= roles(self.slots@, self.graph.verifying, rows@));
        out
    }

    fn spans(&self, rows: &Vec<Row>, phases: &Vec<usize>) -> (r: Vec<RowSpan>)
        requires
            self.wf(),
            slots_valid(self.slots@, rows@),
            0 < rows.len() <= MAX_ROWS,
            phases.len() <= MAX_ROWS,
        ensures
            r@ == self.tick_spans(rows@, phases@),
            self.graph.bonsai is Some && r.len() > 0 ==> crate::qwen35::graph::covers(
                r@,
                rows.len() as int,
            ),
    {
        if self.graph.splash {
            join_roles(phases)
        } else if self.graph.stable_affine_contract() || self.graph.stable_bonsai_prefill()
            || self.graph.ternary {
            let list = self.row_roles(rows);
            proof {
                role_spans_cover(list@);
            }
            join_roles(&list)
        } else {
            Vec::new()
        }
    }

    fn compacts(&self, rows: &Vec<Row>, spans: &Vec<RowSpan>) -> (r: bool)
        requires
            slots_valid(self.slots@, rows@),
        ensures
            r == self.compact_text(rows@, spans@),
    {
        if !self.graph.mlx || self.graph.splash || self.graph.bonsai.is_some() || self.graph.verifying
            || self.graph.geometry != Geometry::dense_27b() {
            return false;
        }
        let mut i: usize = 0;
        while i < spans.len()
            invariant
                i <= spans.len(),
                forall|j: int| 0 <= j < i ==> (#[trigger] spans[j]).role == CHUNK,
            decreases spans.len() - i,
        {
            if spans[i].role != CHUNK {
                return false;
            }
            i = i + 1;
        }
        let mut k: usize = 0;
        while k < rows.len()
            invariant
                k <= rows.len(),
                slots_valid(self.slots@, rows@),
                forall|j: int| 0 <= j < k ==> self.slots[(#[trigger] rows[j]).slot as int].mm is None,
            decreases rows.len() - k,
        {
            if self.slots[rows[k].slot].mm.is_some() {
                return false;
            }
            k = k + 1;
        }
        true
    }

    /// Whether no sequence holds an image.
    pub fn text_only(&self) -> (r: bool)
        ensures
            r == all_text(self.slots@),
    {
        let mut i: usize = 0;
        while i < self.slots.len()
            invariant
                i <= self.slots.len(),
                forall|j: int| 0 <= j < i ==> (#[trigger] self.slots[j]).mm is None,
            decreases self.slots.len() - i,
        {
            if self.slots[i].mm.is_some() {
                return false;
            }
            i = i + 1;
        }
        true
    }

    fn images_of(&self, slot: usize) -> (r: Vec<SlotImage>)
        requires
            self.wf(),
            slot < self.slots.len(),
        ensures
            r@ == slot_images(slot, self.slots[slot as int]),
            forall|n: int|
                0 <= n < r.len() ==> (#[trigger] r[n]).offset + r[n].rows <= MAX_CONTEXT,
    {
        let mut out: Vec<SlotImage> = Vec::new();
        assert(self.slots[slot as int].wf(&self.graph));
        if let Some(m) = &self.slots[slot].mm {
            let ghost want = slot_images(slot, self.slots[slot as int]);
            let mut i: usize = 0;
            while i < m.images.len()
                invariant
                    i <= m.images.len(),
                    m.wf(),
                    self.slots[slot as int].mm == Some(*m),
                    want == slot_images(slot, self.slots[slot as int]),
                    out@ == want.take(i as int),
                    forall|n: int|
                        0 <= n < out.len() ==> (#[trigger] out[n]).offset + out[n].rows <= MAX_CONTEXT,
                decreases m.images.len() - i,
            {
                let key = &m.keys[i];
                proof {
                    assert(m.keys[i as int].wf());
                    assert(m.keys[i as int]@.end() <= m.ids.len());
                    assert(key.nx * key.ny >= 0) by (nonlinear_arith);
                }
                out.push(
                    SlotImage { slot, offset: key.offset, rows: key.nx * key.ny, embd: m.images[i] },
                );
                assert(out@ =~= want.take(i + 1));
                i = i + 1;
            }
            assert(out@ =~= want);
        } else {
            assert(out@ =~= slot_images(slot, self.slots[slot as int]));
        }
        out
    }

    /// The encoded images of every live slot.
    pub fn live_images(&self) -> (r: Vec<SlotImage>)
        requires
            self.wf(),
        ensures
            r@ == live_images(self.slots@, self.slots.len() as int),
            forall|n: int|
                0 <= n < r.len() ==> (#[trigger] r[n]).offset + r[n].rows <= MAX_CONTEXT,
    {
        let mut out: Vec<SlotImage> = Vec::new();
        let mut i: usize = 0;
        while i < self.slots.len()
            invariant
                i <= self.slots.len(),
                self.wf(),
                out@ == live_images(self.slots@, i as int),
                forall|n: int|
                    0 <= n < out.len() ==> (#[trigger] out[n]).offset + out[n].rows <= MAX_CONTEXT,
            decreases self.slots.len() - i,
        {
            let mut more = self.images_of(i);
            let ghost before = out@;
            let ghost added = more@;
            out.append(&mut more);
            assert forall|n: int| 0 <= n < out.len() implies (#[trigger] out[n]).offset + out[n].rows
                <= MAX_CONTEXT by {
                if n >= before.len() {
                    assert(out[n] == added[n - before.len()]);
                } else {
                    assert(out[n] == before[n]);
                }
            }
            i = i + 1;
        }
        out
    }

    fn wide(&self, spans: &Vec<u32>) -> (r: bool)
        ensures
            r == any_wide(spans@),
    {
        let n: usize = spans.len() / 4;
        let mut k: usize = 0;
        while k < n
            invariant
                k <= n,
                n == spans.len() as int / 4,
                forall|j: int| 0 <= j < k ==> #[trigger] spans[4 * j + 1] < TILE,
            decreases n - k,
        {
            if spans[4 * k + 1] as usize >= TILE {
                assert(spans[4 * k + 1] >= TILE);
                return true;
            }
            k = k + 1;
        }
        false
    }

    fn copies(&self, plan: &Plan) -> (r: Vec<(usize, usize)>)
        requires
            self.wf(),
            plan_wf(self.slots@, *plan),
        ensures
            r@ == Seq::new(
                plan.checkpoints@.len(),
                |i: int|
                    (plan.checkpoints[i].slot, (self.slots.len() + plan.checkpoints[i].index) as usize),
            ),
    {
        let mut out: Vec<(usize, usize)> = Vec::new();
        let mut i: usize = 0;
        while i < plan.checkpoints.len()
            invariant
                i <= plan.checkpoints.len(),
                self.wf(),
                plan_wf(self.slots@, *plan),
                out@ == Seq::new(
                    i as nat,
                    |i: int|
                        (
                            plan.checkpoints[i].slot,
                            (self.slots.len() + plan.checkpoints[i].index) as usize,
                        ),
                ),
            decreases plan.checkpoints.len() - i,
        {
            let c = &plan.checkpoints[i];
            out.push((c.slot, self.slots.len() + c.index));
            assert(out@ =~= Seq::new(
                (i + 1) as nat,
                |i: int|
                    (plan.checkpoints[i].slot, (self.slots.len() + plan.checkpoints[i].index) as usize),
            ));
            i = i + 1;
        }
        out
    }

    fn compact_layers(&self, on: bool, accepts: &Vec<bool>) -> (r: Vec<bool>)
        requires
            accepts.len() == self.graph.layers.len(),
        ensures
            r@ == Seq::new(self.graph.layers@.len(), |i: int| on && accepts[i]),
    {
        let mut out: Vec<bool> = Vec::new();
        let mut i: usize = 0;
        while i < accepts.len()
            invariant
                i <= accepts.len(),
                out@ == Seq::new(i as nat, |i: int| on && accepts[i]),
            decreases accepts.len() - i,
        {
            out.push(on && accepts[i]);
            assert(out@ =~= Seq::new((i + 1) as nat, |i: int| on && accepts[i]));
            i = i + 1;
        }
        assert(out@ =~= Seq::new(self.graph.layers@.len(), |i: int| on && accepts[i]));
        out
    }

    /// Work out what a planned tick runs.
    pub fn tick(&self, plan: &Plan, phases: &Vec<usize>, accepts: &Vec<bool>) -> (t: Tick)
        requires
            self.wf(),
            plan_wf(self.slots@, *plan),
            plan.rows.len() <= self.graph.row_capacity,
            plan.selected.len() <= MAX_ROWS,
            self.graph.bonsai is Some ==> plan.selected.len() <= CHUNK,
            phases.len() <= MAX_ROWS,
            accepts.len() == self.graph.layers.len(),
            self.graph.storage_covers(
                plan.tiles.len() as int / 2,
                plan.long_decode_tiles.len() as int / 2,
            ),
        ensures
            self.tick_of(*plan, phases@, accepts@, t),
            t.wf(&self.graph),
    {
        let spans = self.spans(&plan.rows, phases);
        let on = self.compacts(&plan.rows, &spans);
        let load = Load {
            rows: plan.rows.len(),
            tiles: plan.tiles.len() / 2,
            decode_rows: plan.decode_rows.len(),
            long_tiles: plan.long_decode_tiles.len() / 2,
            decode_length: self.decode_length(plan),
            append_length: self.append_length(plan),
            text_only: self.text_only(),
        };
        let t = Tick {
            rows: copy_rows(&plan.rows),
            selected: plan.selected.len(),
            sequences: plan.spans.len() / 4,
            wide: self.wide(&plan.spans),
            chunks: plan.chunks.len() / 4,
            load,
            length: self.row_length(plan),
            images: self.live_images(),
            spans,
            compact: self.compact_layers(on, accepts),
            copies: self.copies(plan),
        };
        proof {
            self.graph.lemma_storage(t.load);
            self.graph.lemma_storage(t.companion_load());
        }
        t
    }
}

pub fn copy_rows(rows: &Vec<Row>) -> (r: Vec<Row>)
    ensures
        r@ == rows@,
{
    let mut r: Vec<Row> = Vec::new();
    let mut i: usize = 0;
    while i < rows.len()
        invariant
            i <= rows.len(),
            r@ == rows@.take(i as int),
        decreases rows.len() - i,
    {
        r.push(rows[i]);
        assert(rows@.take(i + 1) =~= rows@.take(i as int).push(rows[i as int]));
        i = i + 1;
    }
    assert(rows@.take(rows.len() as int) =~= rows@);
    r
}

/// A plan of a sound tick is well-formed.
pub proof fn planned_ticks_are_well_formed(q: Qwen35, rows: Seq<Row>, selected: Seq<usize>, plan: Plan)
    requires
        q.wf(),
        q.tick_fault(rows, selected) is None,
        q.planned(rows, selected, plan),
        forall|i: int|
            0 <= i < plan.checkpoints.len() ==> (#[trigger] plan.checkpoints[i]).index < q.cache.len()
                && plan.checkpoints[i].slot < q.slots.len(),
    ensures
        plan_wf(q.slots@, plan),
        plan.rows.len() <= q.graph.row_capacity,
{
    let c = crate::qwen35::plan::captures(
        q.slots@,
        q.graph.verifying,
        rows,
        q.checkpoints(),
        rows.len() as int,
    );
    tables_stay_inside(q.cutting(rows, c.rows), 0, 0);
    assert forall|i: int| 0 <= i < rows.len() implies (#[trigger] rows[i]).slot < q.slots.len()
        && rows[i].position < q.graph.context by {
        crate::qwen35::plan::lemma_rows_sound(
            q.slots@,
            q.graph.vocab,
            q.graph.context,
            rows,
            0,
            i,
        );
    }
}

} // verus!
