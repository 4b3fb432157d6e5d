//! What the tables of a tick tell of its rows.
use vstd::prelude::*;
use crate::rows::{lemma_seg_end, seg_end, seg_start, tokens, Row};
use crate::tables::{narrow, padded, row_meta};

verus! {

/// Two words per row: the first is its slot, the second its position.
pub proof fn places_tell_slot_and_position(rows: Seq<Row>, r: int)
    requires
        0 <= r < rows.len(),
    ensures
        row_meta(rows).len() == 2 * rows.len(),
        row_meta(rows)[2 * r] == rows[r].slot as u32,
        row_meta(rows)[2 * r + 1] == rows[r].position,
        tokens(rows).len() == rows.len(),
        tokens(rows)[r] == rows[r].token,
{
}

/// A list of rows keeps its order on the device.
pub proof fn lists_keep_their_rows(list: Seq<usize>, i: int)
    requires
        0 <= i < list.len(),
        list[i] <= u32::MAX,
    ensures
        narrow(list).len() == list.len(),
        narrow(list)[i] as int == list[i] as int,
{
}

/// A padded list holds its pages first, one by one.
pub proof fn padding_comes_last(blocks: Seq<u32>, stride: int, j: int)
    requires
        0 <= j < stride,
    ensures
        padded(blocks, stride).len() == stride,
        j < blocks.len() ==> padded(blocks, stride)[j] == blocks[j],
        j >= blocks.len() ==> padded(blocks, stride)[j] == 0,
{
}

/// The bounds of a row's sequence hold the row and nothing of another
/// sequence, and nothing of its own stands right outside them.
pub proof fn bounds_hold_one_sequence(rows: Seq<Row>, r: int, i: int)
    requires
        0 <= r < rows.len(),
        seg_start(rows, r) <= i < seg_end(rows, r),
    ensures
        0 <= seg_start(rows, r) <= r < seg_end(rows, r) <= rows.len(),
        rows[i].slot == rows[r].slot,
        seg_start(rows, r) > 0 ==> rows[seg_start(rows, r) - 1].slot != rows[r].slot,
        seg_end(rows, r) < rows.len() ==> rows[seg_end(rows, r)].slot != rows[r].slot,
{
    lemma_seg_end(rows, r);
    lemma_back(rows, r);
}

proof fn lemma_back(rows: Seq<Row>, r: int)
    requires
        0 <= r < rows.len(),
    ensures
        0 <= seg_start(rows, r) <= r,
        forall|i: int| seg_start(rows, r) <= i <= r ==> (#[trigger] rows[i]).slot == rows[r].slot,
        seg_start(rows, r) > 0 ==> rows[seg_start(rows, r) - 1].slot != rows[r].slot,
    decreases r,
{
    if r > 0 && rows[r - 1].slot == rows[r].slot {
        lemma_back(rows, r - 1);
    }
}

} // verus!
