//! What holds of the model as a whole.
use vstd::prelude::*;
use vstd::set_lib::{lemma_int_range, lemma_len_subset, set_int_range};
use crate::arith::ceil_div;
use crate::nemotron::forward::{
    lemma_sound, reopens, revisits, row_sound, segment, ssd_quads, tables,
};
use crate::nemotron::graph::{scratch_sizes, Block, Nemotron, Slot};
use crate::nemotron::load::{cache_bytes, count_kind, elected, NemotronConfig, Spaces};
use crate::nemotron::serving::fresh;
use crate::rows::{lemma_seg_end, seg_end, visits, Row};
use crate::tables::starts_with;

verus! {

/// Cache bytes that one block allocates.
pub open spec fn block_space(b: Block, s: Spaces) -> int {
    match b {
        Block::Mamba => s.state + s.window,
        Block::Attention => 2 * s.kv,
        Block::Moe => 0,
    }
}

pub open spec fn space_bytes(blocks: Seq<Block>, s: Spaces) -> int
    decreases blocks.len(),
{
    if blocks.len() == 0 {
        0
    } else {
        space_bytes(blocks.drop_last(), s) + block_space(blocks.last(), s)
    }
}

proof fn lemma_counts(blocks: Seq<Block>, s: Spaces)
    ensures
        space_bytes(blocks, s) == count_kind(blocks, Block::Mamba) * (s.state + s.window)
            + count_kind(blocks, Block::Attention) * (2 * s.kv),
        count_kind(blocks, Block::Mamba) + count_kind(blocks, Block::Attention) + count_kind(
            blocks,
            Block::Moe,
        ) == blocks.len(),
    decreases blocks.len(),
{
    if blocks.len() > 0 {
        lemma_counts(blocks.drop_last(), s);
        let m = count_kind(blocks.drop_last(), Block::Mamba);
        let a = count_kind(blocks.drop_last(), Block::Attention);
        assert((m + 1) * (s.state + s.window) == m * (s.state + s.window) + (s.state + s.window))
            by (nonlinear_arith);
        assert((a + 1) * (2 * s.kv) == a * (2 * s.kv) + 2 * s.kv) by (nonlinear_arith);
    }
}

/// The caches that the blocks of an elected checkpoint allocate are exactly
/// the cache bytes that admission charged.
pub proof fn caches_are_charged_exactly(c: NemotronConfig, context: int, batch: int)
    requires
        elected(c),
    ensures
        space_bytes(
            c.blocks@,
            crate::nemotron::load::spaces(c.blocks@, context, batch),
        ) == cache_bytes(context, batch),
{
    lemma_counts(c.blocks@, crate::nemotron::load::spaces(c.blocks@, context, batch));
}

/// A prompt that continues the saved prefix reuses all of it, and no prompt
/// reuses tokens that are not its own.
pub proof fn prompts_reuse_only_their_own_tokens(m: Nemotron, tokens: Seq<u32>)
    ensures
        0 < m.prefix.history.len() < tokens.len() && starts_with(tokens, m.prefix.history@)
            ==> m.reusable(tokens) == m.prefix.history.len(),
        m.reusable(tokens) == 0 || (m.reusable(tokens) < tokens.len() && tokens.take(
            m.reusable(tokens),
        ) == m.prefix.history@),
{
}

/// Slots that the first `n` rows visit.
pub open spec fn visited(rows: Seq<Row>, n: int) -> Set<int>
    decreases n,
{
    if n <= 0 {
        Set::empty()
    } else {
        visited(rows, n - 1).insert(rows[n - 1].slot as int)
    }
}

proof fn lemma_visited(rows: Seq<Row>, n: int, slots: int)
    requires
        0 <= n <= rows.len(),
        0 <= slots,
        forall|i: int| 0 <= i < n ==> (#[trigger] rows[i]).slot < slots,
    ensures
        visited(rows, n).finite(),
        visited(rows, n).len() <= slots,
        forall|s: int|
            visited(rows, n).contains(s) <==> exists|i: int|
                0 <= i < n && (#[trigger] rows[i]).slot == s,
        visited(rows, n).subset_of(set_int_range(0, slots)),
    decreases n,
{
    if n > 0 {
        lemma_visited(rows, n - 1, slots);
        assert forall|s: int|
            visited(rows, n).contains(s) <==> exists|i: int|
                0 <= i < n && (#[trigger] rows[i]).slot == s by {
            if visited(rows, n).contains(s) {
                if s == rows[n - 1].slot {
                    assert(rows[n - 1].slot == s);
                } else {
                    let i = choose|i: int| 0 <= i < n - 1 && (#[trigger] rows[i]).slot == s;
                    assert(rows[i].slot == s);
                }
            }
        }
        assert(visited(rows, n).subset_of(set_int_range(0, slots))) by {
            assert(rows[n - 1].slot < slots);
        }
        lemma_int_range(0, slots);
        lemma_len_subset(visited(rows, n), set_int_range(0, slots));
    } else {
        assert(visited(rows, n) =~= Set::empty());
    }
}

/// Rows `a..b` of one slot add that slot.
proof fn lemma_visited_run(rows: Seq<Row>, a: int, b: int)
    requires
        0 <= a < b <= rows.len(),
        forall|i: int| a <= i < b ==> (#[trigger] rows[i]).slot == rows[a].slot,
    ensures
        visited(rows, b) == visited(rows, a).insert(rows[a].slot as int),
    decreases b - a,
{
    if b > a + 1 {
        lemma_visited_run(rows, a, b - 1);
        assert(rows[b - 1].slot == rows[a].slot);
        assert(visited(rows, b) =~= visited(rows, a).insert(rows[a].slot as int));
    }
}

proof fn lemma_quad_count(slot: usize, r: int, end: int, seq: int)
    requires
        0 <= r <= end,
    ensures
        ssd_quads(slot, r, end, seq).len() == 4 * ceil_div(end - r, 32),
    decreases end - r,
{
    if r < end {
        if r + 32 <= end {
            lemma_quad_count(slot, r + 32, end, seq);
        } else {
            assert(ssd_quads(slot, r + 32, end, seq) =~= Seq::<u32>::empty());
        }
    }
}

proof fn lemma_tables_fit(rows: Seq<Row>, slots: int, first: int, seq: int, base: int)
    requires
        0 <= first <= rows.len(),
        forall|i: int| 0 <= i < rows.len() ==> (#[trigger] rows[i]).slot < slots,
        0 <= slots,
        !revisits(rows),
        first == 0 || first == rows.len() || rows[first - 1].slot != rows[first].slot,
    ensures
        ({
            let t = tables(rows, first, seq, base);
            let left = slots - visited(rows, first).len();
            &&& t.sequences.len() <= 4 * left
            &&& t.ssd_tiles.len() * 8 <= (rows.len() - first) + 32 * left
            &&& t.attention_tiles.len() * 2 == t.ssd_tiles.len()
        }),
    decreases rows.len() - first,
{
    lemma_visited(rows, first, slots);
    if first < rows.len() {
        lemma_seg_end(rows, first);
        let end = seg_end(rows, first);
        let slot = rows[first].slot;
        let here = segment(rows, first, seq, base);
        let next = base + here.ssd_tiles.len() as int / 4;
        lemma_tables_fit(rows, slots, end, seq + 1, next);
        lemma_visited_run(rows, first, end);
        assert(!visited(rows, first).contains(slot as int)) by {
            if visited(rows, first).contains(slot as int) {
                let i = choose|i: int| 0 <= i < first && (#[trigger] rows[i]).slot == slot as int;
                assert(rows.take(first)[i].slot == slot);
                assert(reopens(rows, first));
            }
        }
        lemma_quad_count(slot, first, end, seq);
        lemma_pair_count(first, end);
    }
}

proof fn lemma_pair_count(r: int, end: int)
    requires
        0 <= r <= end,
    ensures
        crate::rows::tile_pairs(r, end, 32).len() == 2 * ceil_div(end - r, 32),
    decreases end - r,
{
    if r < end {
        if r + 32 <= end {
            lemma_pair_count(r + 32, end);
        } else {
            assert(crate::rows::tile_pairs(r + 32, end, 32) =~= Seq::<u32>::empty());
        }
    }
}

/// The tables of every accepted tick fit the scratch planes that a model of
/// as many slots allocates.
pub proof fn tables_fit_their_planes(m: Nemotron, rows: Seq<Row>, outputs: Seq<usize>, pages: int)
    requires
        m.wf(),
        m.tick_fault(rows, outputs) is None,
    ensures
        ({
            let t = tables(rows, 0, 0, 0);
            let size = scratch_sizes(m.slots.len() as int, pages);
            &&& rows.len() * 4 <= size[0]
            &&& rows.len() * 8 <= size[1]
            &&& outputs.len() * 4 <= size[3]
            &&& t.decodes.len() * 4 <= size[4]
            &&& t.attention_tiles.len() * 4 <= size[5]
            &&& t.sequences.len() * 4 <= size[6]
            &&& t.ssd_tiles.len() * 4 <= size[7]
        }),
{
    assert forall|i: int| 0 <= i < rows.len() implies (#[trigger] rows[i]).slot < m.slots.len() by {
        lemma_sound(m.slots@, m.context, rows, 0, i);
        assert(row_sound(m.slots@, m.context, rows, i));
    }
    assert(visited(rows, 0).len() == 0);
    lemma_tables_fit(rows, m.slots.len() as int, 0, 0, 0);
    crate::nemotron::forward::every_row_takes_one_route(rows, 0, 0, 0);
    crate::rows::lemma_tile_rows_bound(tables(rows, 0, 0, 0).attention_tiles);
}

/// A sequence without history never inherits a state: whatever emptied its
/// slot, the first tick that visits it starts it afresh, and no other.
pub proof fn emptied_sequences_start_afresh(slots: Seq<Slot>, rows: Seq<Row>, n: int, s: usize)
    requires
        0 <= n <= slots.len() <= usize::MAX,
    ensures
        fresh(slots, rows, n).contains(s) <==> s < n && slots[s as int].history.len() == 0 && visits(rows, s),
    decreases n,
{
    if n > 0 {
        emptied_sequences_start_afresh(slots, rows, n - 1, s);
        let before = fresh(slots, rows, n - 1);
        let last = (n - 1) as usize;
        if slots[n - 1].history.len() == 0 && visits(rows, last) {
            let now = before.push(last);
            if before.contains(s) {
                let i = choose|i: int| 0 <= i < before.len() && before[i] == s;
                assert(now[i] == s);
            }
            if s == last {
                assert(now[before.len() as int] == s);
            }
        }
    }
}

} // verus!
