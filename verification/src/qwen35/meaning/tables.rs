//! What the tables of a tick tell its kernels.
use vstd::prelude::*;
use crate::qwen35::forward::Tick;
use crate::qwen35::plan::{next_cut, lemma_next_cut, Cutting, Plan};
use crate::qwen35::state::{Qwen35, Slot};
use crate::qwen35::upload::{page_table, rope, rope_table};
use crate::arith::min;
use crate::rows::{lemma_seg_end, seg_end, Row, TILE};


verus! {

/// Page `j` of a slot's sequence stands at place `j` of that slot's stretch of
/// the table.
pub proof fn page_tables_keep_slots_apart(slots: Seq<Slot>, stride: int, n: int, s: int, j: int)
    requires
        0 <= s < n <= slots.len(),
        0 <= j < stride,
    ensures
        page_table(slots, stride, n).len() == n * stride,
        j < slots[s].blocks.len() ==> page_table(slots, stride, n)[s * stride + j] == slots[s].blocks[j],
    decreases n,
{
    let before = page_table(slots, stride, n - 1);
    lemma_pages_len(slots, stride, n - 1);
    assert((n - 1) * stride + stride == n * stride) by (nonlinear_arith);
    if s < n - 1 {
        page_tables_keep_slots_apart(slots, stride, n - 1, s, j);
        assert(0 <= s * stride + j < (n - 1) * stride) by (nonlinear_arith)
            requires
                0 <= s < n - 1,
                0 <= j < stride,
        ;
    }
}

proof fn lemma_pages_len(slots: Seq<Slot>, stride: int, n: int)
    requires
        0 <= n <= slots.len(),
        0 <= stride,
    ensures
        page_table(slots, stride, n).len() == n * stride,
    decreases n,
{
    if n > 0 {
        lemma_pages_len(slots, stride, n - 1);
        assert((n - 1) * stride + stride == n * stride) by (nonlinear_arith);
    } else {
        assert(0 * stride == 0) by (nonlinear_arith);
    }
}

/// Four words per row: where the row stands. Rows of a text stand at their
/// position in all of them.
pub proof fn rotary_tables_follow_the_rows(slots: Seq<Slot>, rows: Seq<Row>, r: int, c: int)
    requires
        0 <= r < rows.len(),
        0 <= c < 4,
    ensures
        rope_table(slots, rows).len() == 4 * rows.len(),
        rope_table(slots, rows)[4 * r + c] == rope(
            slots,
            rows[r].slot as int,
            rows[r].position as int,
        )[c],
        slots[rows[r].slot as int].mm is None ==> rope_table(slots, rows)[4 * r + c]
            == rows[r].position,
    decreases rows.len(),
{
    lemma_rope_len(slots, rows.drop_last());
    if r < rows.len() - 1 {
        rotary_tables_follow_the_rows(slots, rows.drop_last(), r, c);
    }
}

proof fn lemma_rope_len(slots: Seq<Slot>, rows: Seq<Row>)
    ensures
        rope_table(slots, rows).len() == 4 * rows.len(),
    decreases rows.len(),
{
    if rows.len() > 0 {
        lemma_rope_len(slots, rows.drop_last());
    }
}

/// The quad of a sequence tells its first row, its rows and their slot.
pub proof fn sequences_tell_rows_and_slot(cut: Cutting, first: int, base: int, r: int)
    requires
        0 <= first < cut.rows.len() <= u32::MAX,
        0 <= base <= u32::MAX,
        cut.rows[first].slot <= u32::MAX,
        cut.segment(first, base).spans[0] <= r < cut.segment(first, base).spans[0]
            + cut.segment(first, base).spans[1],
    ensures
        ({
            let quad = cut.segment(first, base).spans;
            &&& quad.len() == 4
            &&& quad[0] == first
            &&& quad[0] + quad[1] == seg_end(cut.rows, first)
            &&& quad[2] == cut.rows[r].slot
            &&& quad[3] == base
        }),
{
    lemma_seg_end(cut.rows, first);
}

/// The first quad of a sequence's chunks tells its first row, its rows, their
/// slot, and the entry that its last row is saved to.
pub proof fn chunks_tell_rows_slot_and_entry(rows: Seq<Row>, marks: Seq<u32>, first: int, end: int, r: int)
    requires
        0 <= first < end <= rows.len() <= u32::MAX,
        marks.len() == rows.len(),
        rows[first].slot <= u32::MAX,
        forall|i: int| first <= i < end ==> (#[trigger] rows[i]).slot == rows[first].slot,
        first <= r < first + Cutting::chunks(rows, marks, first, end)[1],
    ensures
        ({
            let quad = Cutting::chunks(rows, marks, first, end);
            let last = first + quad[1] - 1;
            &&& quad[0] == first
            &&& 1 <= quad[1] <= TILE
            &&& last < end
            &&& quad[2] == rows[r].slot
            &&& quad[3] == marks[last]
            &&& r < last ==> marks[r] == 0
            &&& quad.skip(4) == Cutting::chunks(rows, marks, last + 1, end)
        }),
{
    let limit = min(first + TILE, end);
    lemma_next_cut(marks, first, limit);
    let next = next_cut(marks, first, limit);
    let all = Cutting::chunks(rows, marks, first, end);
    assert(all.skip(4) =~= Cutting::chunks(rows, marks, next, end));
}

impl Qwen35 {
    /// Saved prefixes are copied from the slot of their sequence to their own
    /// entry, which stands behind all slots.
    pub proof fn prefixes_are_copied_to_their_entries(&self, plan: Plan, phases: Seq<usize>, accepts: Seq<bool>, t: Tick, i: int)
        requires
            self.tick_of(plan, phases, accepts, t),
            0 <= i < plan.checkpoints.len(),
            plan.checkpoints[i].slot < self.slots.len(),
            self.slots.len() + plan.checkpoints[i].index <= usize::MAX,
        ensures
            t.copies.len() == plan.checkpoints.len(),
            t.copies[i].0 == plan.checkpoints[i].slot,
            t.copies[i].0 < self.slots.len() <= t.copies[i].1,
            t.copies[i].1 - self.slots.len() == plan.checkpoints[i].index,
    {
        assert(t.copies@[i] == t.copies[i]);
    }
}

} // verus!
