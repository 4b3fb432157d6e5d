//! How far the rows of a tick look, and where generated rows stand.
use vstd::prelude::*;
use crate::qwen35::state::{Layout, Slot};
use crate::qwen35::tick::{longest, longest_row, longest_tile, row_limit};
use crate::rows::Row;

verus! {

/// The length of a list of rows reaches behind every one of them, and no
/// further than behind one of them.
pub proof fn lengths_reach_behind_every_listed_row(rows: Seq<Row>, list: Seq<u32>, i: int)
    requires
        0 <= i < list.len(),
    ensures
        rows[list[i] as int].position < longest(rows, list),
        exists|j: int|
            0 <= j < list.len() && longest(rows, list) == rows[#[trigger] list[j] as int].position + 1,
    decreases list.len(),
{
    let rest = list.drop_last();
    let last = list.len() - 1;
    assert(list.last() == list[last]);
    if rest.len() > 0 {
        let k = if i < last { i } else { 0 };
        lengths_reach_behind_every_listed_row(rows, rest, k);
        let j = choose|j: int|
            0 <= j < rest.len() && longest(rows, rest) == rows[#[trigger] rest[j] as int].position + 1;
        assert(rest[j] == list[j]);
        assert(rest[k] == list[k]);
    } else {
        assert(longest(rows, rest) == 1);
    }
}

/// The length of a tick reaches behind every row, and no further than behind
/// one of them.
pub proof fn lengths_reach_behind_every_row(rows: Seq<Row>, i: int)
    requires
        0 <= i < rows.len(),
    ensures
        rows[i].position < longest_row(rows),
        exists|j: int| 0 <= j < rows.len() && longest_row(rows) == (#[trigger] rows[j]).position + 1,
    decreases rows.len(),
{
    let rest = rows.drop_last();
    let last = rows.len() - 1;
    assert(rows.last() == rows[last]);
    if rest.len() > 0 {
        let k = if i < last { i } else { 0 };
        lengths_reach_behind_every_row(rest, k);
        let j = choose|j: int| 0 <= j < rest.len() && longest_row(rest) == (#[trigger] rest[j]).position + 1;
        assert(rest[j] == rows[j]);
        assert(rest[k] == rows[k]);
    } else {
        assert(longest_row(rest) == 1);
    }
}

/// The length of the tiles reaches behind what the last row of each may look
/// at.
pub proof fn lengths_reach_behind_every_tile(slots: Seq<Slot>, rows: Seq<Row>, tiles: Seq<u32>, n: int, i: int)
    requires
        0 <= i < n,
    ensures
        row_limit(slots, rows[tiles[2 * i] + tiles[2 * i + 1] - 1]) < longest_tile(slots, rows, tiles, n),
    decreases n,
{
    if i < n - 1 {
        lengths_reach_behind_every_tile(slots, rows, tiles, n - 1, i);
    }
}

impl Layout {
    /// The first row behind a prompt stands where the prompt ends, with one
    /// coordinate throughout, and every further row one further.
    pub proof fn generated_rows_go_on_behind_the_prompt(&self, row: int, c: int)
        requires
            self.positions.len() == self.ids.len(),
            self.ids.len() <= row,
            0 <= c < 4,
            self.final_position + (row + 1 - self.ids.len()) <= u32::MAX,
        ensures
            self.position_of(row).len() == 4,
            self.position_of(self.ids.len() as int)[c] == self.final_position,
            self.position_of(row + 1)[c] == self.position_of(row)[c] + 1,
    {
    }
}

} // verus!
