//! What the tables and the rows of a tick tell.
use vstd::prelude::*;
use crate::nemotron::forward::{segment, ssd_quads};
use crate::nemotron::graph::Slot;
use crate::nemotron::mixed::{batch, completed, mixed_rows, prompt_rows, spread, Job};
use crate::nemotron::serving::page_table;
use crate::rows::{lemma_seg_end, seg_end, Row};

verus! {

/// Page `j` of a slot's sequence stands at place `j` of that slot's stretch of
/// the table.
pub proof fn page_tables_keep_slots_apart(slots: Seq<Slot>, stride: int, n: int, s: int, j: int)
    requires
        0 <= s < n <= slots.len(),
        0 <= j < stride,
    ensures
        page_table(slots, stride, n).len() == n * stride,
        j < slots[s].blocks.len() ==> page_table(slots, stride, n)[s * stride + j] == slots[s].blocks[j],
    decreases n,
{
    lemma_pages_len(slots, stride, n - 1);
    assert((n - 1) * stride + stride == n * stride) by (nonlinear_arith);
    if s < n - 1 {
        page_tables_keep_slots_apart(slots, stride, n - 1, s, j);
        assert(0 <= s * stride + j < (n - 1) * stride) by (nonlinear_arith)
            requires
                0 <= s < n - 1,
                0 <= j < stride,
        ;
    }
}

proof fn lemma_pages_len(slots: Seq<Slot>, stride: int, n: int)
    requires
        0 <= n <= slots.len(),
        0 <= stride,
    ensures
        page_table(slots, stride, n).len() == n * stride,
    decreases n,
{
    if n > 0 {
        lemma_pages_len(slots, stride, n - 1);
        assert((n - 1) * stride + stride == n * stride) by (nonlinear_arith);
    } else {
        assert(0 * stride == 0) by (nonlinear_arith);
    }
}

/// The quad of a sequence tells the slot of its rows, the first of them, how
/// many they are, and how many tiles stand before it.
pub proof fn sequences_tell_slot_and_rows(rows: Seq<Row>, first: int, seq: int, base: int, r: int)
    requires
        0 <= first < rows.len() <= u32::MAX,
        0 <= base <= u32::MAX,
        rows[first].slot <= u32::MAX,
        segment(rows, first, seq, base).sequences[1] <= r,
        r < segment(rows, first, seq, base).sequences[1] + segment(rows, first, seq, base).sequences[2],
    ensures
        ({
            let quad = segment(rows, first, seq, base).sequences;
            &&& quad.len() == 4
            &&& quad[0] == rows[r].slot
            &&& quad[1] == first
            &&& quad[1] + quad[2] == seg_end(rows, first)
            &&& quad[3] == base
        }),
{
    lemma_seg_end(rows, first);
}

/// The first quad of a sequence's tiles tells the slot of its rows, the first
/// of them, how many they are, and the number of their sequence.
pub proof fn tiles_tell_slot_rows_and_sequence(slot: usize, first: int, end: int, seq: int)
    requires
        0 <= first < end <= u32::MAX,
        slot <= u32::MAX,
        0 <= seq <= u32::MAX,
    ensures
        ({
            let quad = ssd_quads(slot, first, end, seq);
            &&& quad[0] == slot
            &&& quad[1] == first
            &&& 1 <= quad[2] <= 32
            &&& quad[1] + quad[2] <= end
            &&& quad[1] + quad[2] < end ==> quad[2] == 32
            &&& quad[3] == seq
            &&& quad.skip(4) == ssd_quads(slot, first + quad[2], end, seq)
        }),
{
    let quad = ssd_quads(slot, first, end, seq);
    assert(quad.skip(4) =~= ssd_quads(slot, first + 32, end, seq));
    if end - first < 32 {
        assert(ssd_quads(slot, first + 32, end, seq) =~= Seq::empty());
        assert(ssd_quads(slot, end, end, seq) =~= Seq::empty());
    }
}

/// A row of a prompt is the token of the prompt at its position, and the rows
/// go on where the prompt stopped.
pub proof fn prompt_rows_are_tokens_at_their_positions(job: Job, n: int, i: int)
    requires
        0 <= i < n,
        0 <= job.offset,
        job.offset + n <= job.tokens.len() <= u32::MAX,
    ensures
        ({
            let row = prompt_rows(job, n)[i];
            &&& prompt_rows(job, n).len() == n
            &&& row.slot == job.slot
            &&& row.token == job.tokens[row.position as int]
            &&& i == 0 ==> row.position == job.offset
            &&& i > 0 ==> row.position == prompt_rows(job, n)[i - 1].position + 1
        }),
{
}

/// What completes in a tick is told by its own slot and length, and by the row
/// that holds its last token.
pub proof fn completions_tell_their_last_row(decodes: Seq<Row>, jobs: Seq<Job>, grants: Seq<usize>, n: int, i: int)
    requires
        0 <= n <= jobs.len(),
        n <= grants.len(),
        forall|j: int|
            0 <= j < n ==> 0 <= (#[trigger] jobs[j]).offset && jobs[j].offset + grants[j]
                <= jobs[j].tokens.len() <= u32::MAX,
        mixed_rows(decodes, jobs, grants, n).len() <= u32::MAX,
        0 <= i < completed(decodes, jobs, grants, n).len(),
    ensures
        ({
            let (slot, last, len) = completed(decodes, jobs, grants, n)[i];
            let rows = mixed_rows(decodes, jobs, grants, n);
            &&& last < rows.len()
            &&& rows[last as int].slot == slot
            &&& rows[last as int].position + 1 == len
        }),
    decreases n,
{
    if n > 0 {
        let before = mixed_rows(decodes, jobs, grants, n - 1);
        let rows = mixed_rows(decodes, jobs, grants, n);
        assert(forall|k: int| 0 <= k < before.len() ==> rows[k] == before[k]);
        if i < completed(decodes, jobs, grants, n - 1).len() {
            completions_tell_their_last_row(decodes, jobs, grants, n - 1, i);
        }
    }
}

/// A decode row is its slot's token at its slot's position, and the slot's
/// logits are those of its row.
pub proof fn batches_serve_their_slots(tokens: Seq<u32>, positions: Seq<u32>, n: int, s: int)
    requires
        0 <= s < n <= positions.len() == tokens.len(),
        n <= usize::MAX,
    ensures
        ({
            let k = batch(tokens, positions, s).len() as int;
            positions[s] != 0 ==> {
                &&& k < batch(tokens, positions, n).len()
                &&& batch(tokens, positions, n)[k].slot == s
                &&& batch(tokens, positions, n)[k].token == tokens[s]
                &&& batch(tokens, positions, n)[k].position == positions[s]
            }
        }),
    decreases n,
{
    if s < n - 1 {
        batches_serve_their_slots(tokens, positions, n - 1, s);
    }
}

proof fn lemma_batch_len(a: Seq<u32>, b: Seq<u32>, positions: Seq<u32>, n: int)
    requires
        0 <= n <= positions.len(),
    ensures
        batch(a, positions, n).len() == batch(b, positions, n).len(),
        batch(a, positions, n).len() <= n,
    decreases n,
{
    if n > 0 {
        lemma_batch_len(a, b, positions, n - 1);
    }
}

proof fn lemma_spread_len(positions: Seq<u32>, logits: Seq<u32>, n: int)
    requires
        0 <= n <= positions.len(),
        batch(positions, positions, n).len() * 131072 <= logits.len(),
    ensures
        spread(positions, logits, n).len() == n * 131072,
    decreases n,
{
    if n > 0 {
        lemma_batch_len(positions, positions, positions, n - 1);
        lemma_spread_len(positions, logits, n - 1);
    }
}

/// The logits of a slot are those of its row of the batch, or zeros where it
/// did not run.
pub proof fn slots_get_the_logits_of_their_rows(
    tokens: Seq<u32>,
    positions: Seq<u32>,
    logits: Seq<u32>,
    n: int,
    s: int,
    v: int,
)
    requires
        0 <= s < n <= positions.len() == tokens.len(),
        0 <= v < 131072,
        batch(positions, positions, n).len() * 131072 <= logits.len(),
    ensures
        spread(positions, logits, n)[s * 131072 + v] == if positions[s] != 0 {
            logits[batch(tokens, positions, s).len() * 131072 + v]
        } else {
            0
        },
    decreases n,
{
    lemma_spread_len(positions, logits, n - 1);
    lemma_batch_len(tokens, positions, positions, s);
    if s < n - 1 {
        slots_get_the_logits_of_their_rows(tokens, positions, logits, n - 1, s, v);
        assert(s * 131072 + v < (n - 1) * 131072);
    }
}

} // verus!
