//! What the rows of a draft and the copies of images tell.
use vstd::prelude::*;
use crate::arith::lemma_ceil_div;
use crate::device::effects::{group_runs, group_shared, host, run};
use crate::device::names::lemma_shared_names;
use crate::device::values::{apart, Cells, Value};
use crate::program::{Buffer, Step};
use crate::qwen35::dflash::MASK;
use crate::qwen35::draft::{split, BlockDraft, ChainDraft, Pendings};
use crate::qwen35::graph::Graph;
use crate::qwen35::image::Key;
use crate::qwen35::meaning::places::lemma_places;
use crate::qwen35::seat::{copied_images, image_copies};
use crate::qwen35::state::{Qwen35, Slot};
use crate::qwen35::tick::{live_images, slot_images};
use crate::qwen35::upload::page_table;
use crate::qwen35::waves::{first_known, lemma_first_known};
use crate::rows::tokens;
use crate::tables::row_meta;

verus! {

broadcast use {group_runs, group_shared};

impl Qwen35 {
    /// A block starts with the pending token of its sequence, right behind its
    /// history; the rows that follow stand one further each and are masked.
    pub proof fn blocks_follow_their_sequence(&self, pendings: Pendings, block: int, n: int, i: int, j: int)
        requires
            0 <= i < n <= pendings.len(),
            0 <= j < block,
            self.slots[pendings[i].0 as int].history.len() + block <= u32::MAX,
        ensures
            ({
                let rows = self.block_rows(pendings, block, n);
                let row = rows[i * block + j];
                &&& rows.len() == n * block
                &&& row.slot == pendings[i].0
                &&& row.position == self.slots[row.slot as int].history.len() + j
                &&& j == 0 ==> row.token == pendings[i].1
                &&& j > 0 ==> row.token == MASK
            }),
        decreases n,
    {
        self.lemma_block_len(pendings, block, n - 1);
        assert((n - 1) * block + block == n * block) by (nonlinear_arith);
        if i < n - 1 {
            self.blocks_follow_their_sequence(pendings, block, n - 1, i, j);
            assert(0 <= i * block + j < (n - 1) * block) by (nonlinear_arith)
                requires
                    0 <= i < n - 1,
                    0 <= j < block,
            ;
        }
    }

    proof fn lemma_block_len(&self, pendings: Pendings, block: int, n: int)
        requires
            0 <= n <= pendings.len(),
            0 < block,
        ensures
            self.block_rows(pendings, block, n).len() == n * block,
        decreases n,
    {
        if n > 0 {
            self.lemma_block_len(pendings, block, n - 1);
            assert((n - 1) * block + block == n * block) by (nonlinear_arith);
        } else {
            assert(0 * block == 0) by (nonlinear_arith);
        }
    }

    /// The tile of a block covers the rows of one sequence, all of them.
    pub proof fn block_tiles_cover_their_sequence(&self, pendings: Pendings, block: int, d: BlockDraft, i: int, r: int)
        requires
            self.blocked(pendings, block, d),
            0 < block,
            0 <= i < pendings.len(),
            pendings.len() * block <= u32::MAX,
            self.slots[pendings[i].0 as int].history.len() + block <= u32::MAX,
            d.tiles[2 * i] <= r < d.tiles[2 * i] + d.tiles[2 * i + 1],
        ensures
            d.tiles.len() == 2 * pendings.len(),
            d.tiles[2 * i + 1] == block,
            r < d.rows.len(),
            d.rows[r].slot == pendings[i].0,
    {
        let n = pendings.len() as int;
        assert(0 <= i * block && i * block + block <= n * block) by (nonlinear_arith)
            requires
                0 <= i < n,
                0 < block,
        ;
        assert(d.tiles@[2 * i] == (i * block) as u32);
        assert(d.tiles@[2 * i + 1] == block as u32);
        self.blocks_follow_their_sequence(pendings, block, n, i, r - i * block);
    }

    /// A chain starts with the pending token of each sequence right behind its
    /// history, ends as many rows further as it is long, and every row attends
    /// up to itself.
    pub proof fn chains_follow_their_sequence(&self, pendings: Pendings, k: int, d: ChainDraft, i: int)
        requires
            self.chained(pendings, k, d),
            0 <= k,
            0 <= i < pendings.len() <= u32::MAX,
            self.slots[pendings[i].0 as int].history.len() + k <= u32::MAX,
        ensures
            d.rows.len() == pendings.len(),
            d.rows[i].slot == pendings[i].0,
            d.rows[i].token == pendings[i].1,
            d.rows[i].position == self.slots[pendings[i].0 as int].history.len(),
            d.horizons[i].slot == d.rows[i].slot,
            d.horizons[i].position == d.rows[i].position + d.k,
            d.decode_rows[i] == i,
            d.limits[i] == d.rows[i].position,
    {
        assert(d.rows@[i] == self.next_row(pendings[i]));
    }
}

impl ChainDraft {
    /// The tables of a chain stand where its kernels read them.
    pub proof fn chain_tables_stand_where_they_are_read(&self, m: &Qwen35, c: Cells)
        requires
            apart(m.graph.workplace(Seq::empty())),
        ensures
            ({
                let s = m.graph.scratch;
                let after = host(c, self.chain_writes(m));
                &&& after[s.ids.id] == (Value::Words { words: tokens(self.rows@) })
                &&& after[s.meta.id] == (Value::Words { words: row_meta(self.rows@) })
                &&& after[s.decode_rows.id] == (Value::Words { words: self.decode_rows@ })
                &&& after[s.mrope.id] == (Value::Words { words: self.mrope@ })
                &&& after[s.limits.id] == (Value::Words { words: self.limits@ })
                &&& after[s.pages.id] == (Value::Words {
                    words: page_table(m.slots@, m.graph.page_stride as int, m.slots.len() as int),
                })
            }),
    {
        lemma_places(&m.graph, Seq::empty());
        let w = self.chain_writes(m);
        assert(w =~= Seq::empty().push(w[0]).push(w[1]).push(w[2]).push(w[3]).push(w[4]).push(w[5]));
    }
}

impl BlockDraft {
    /// The tables of a block stand where its kernels read them.
    pub proof fn block_tables_stand_where_they_are_read(&self, g: &Graph, c: Cells)
        requires
            apart(g.workplace(Seq::empty())),
        ensures
            ({
                let s = g.scratch;
                let after = host(c, self.block_writes(g));
                &&& after[s.ids.id] == (Value::Words { words: tokens(self.rows@) })
                &&& after[s.meta.id] == (Value::Words { words: row_meta(self.rows@) })
                &&& after[s.attn_tiles.id] == (Value::Words { words: self.tiles@ })
                &&& after[s.mrope.id] == (Value::Words { words: self.mrope@ })
            }),
    {
        lemma_places(g, Seq::empty());
        let w = self.block_writes(g);
        assert(w =~= Seq::empty().push(w[0]).push(w[1]).push(w[2]).push(w[3]));
    }
}

/// Token `j` of draft `i` is the `j`-th that its run keeps.
pub proof fn drafts_keep_the_order_of_their_runs(list: Seq<u32>, k: int, skip: int, n: int, i: int, j: int)
    requires
        0 <= i < n,
        0 <= skip <= k,
        0 <= j < k - skip,
        list.len() == n * k,
    ensures
        split(list, k, skip, n).len() == n,
        split(list, k, skip, n)[i].len() == k - skip,
        split(list, k, skip, n)[i][j] == list[i * k + skip + j],
{
    assert(0 <= i * k && i * k + k <= n * k) by (nonlinear_arith)
        requires
            0 <= i < n,
            0 <= k,
    ;
}

/// The encoded images of a slot are told with that slot, where each starts in
/// its prompt, and one row for every cell.
pub proof fn live_images_tell_slot_and_rows(slots: Seq<Slot>, n: int, s: int, i: int)
    requires
        0 <= s < n <= slots.len() <= usize::MAX,
        slots[s].mm matches Some(m) && 0 <= i < m.images.len() && m.images.len() == m.keys.len()
            && m.keys[i].nx * m.keys[i].ny <= usize::MAX,
    ensures
        ({
            let all = live_images(slots, n);
            let k = live_images(slots, s).len() + i;
            let m = slots[s].mm->0;
            &&& k < all.len()
            &&& all[k].slot == s
            &&& all[k].offset == m.keys[i].offset
            &&& all[k].rows == m.keys[i].nx * m.keys[i].ny
            &&& all[k].embd == m.images[i]
        }),
    decreases n,
{
    if s < n - 1 {
        live_images_tell_slot_and_rows(slots, n - 1, s, i);
    } else {
        let m = slots[s].mm->0;
        assert(0 <= m.keys[i].nx * m.keys[i].ny) by (nonlinear_arith);
        assert(slot_images(s as usize, slots[s])[i].embd == m.images[i]);
    }
}

proof fn lemma_copied(m: Cells, p: Seq<Step>, unique: Seq<Key>, outputs: Seq<Option<Buffer>>, images: Seq<Key>, next: int, n: int, id: u32)
    requires
        0 <= n <= images.len(),
        0 <= next,
        next + images.len() <= u32::MAX,
        id < next || next + n <= id,
    ensures
        run(m, image_copies(p, unique, outputs, images, next, n))[id] == run(m, p)[id],
    decreases n,
{
    if n > 0 {
        lemma_shared_names();
        lemma_copied(m, p, unique, outputs, images, next, n - 1, id);
    }
}

/// A prompt gets its own copy of the encoding of every image, in the order of
/// its images, each from the encoding of the same pixels.
#[verifier::rlimit(40)]
#[verifier::spinoff_prover]
pub proof fn prompts_get_copies_of_their_own_images(
    m: Cells,
    p: Seq<Step>,
    unique: Seq<Key>,
    outputs: Seq<Option<Buffer>>,
    images: Seq<Key>,
    next: int,
    n: int,
    i: int,
)
    requires
        0 <= i < n <= images.len(),
        0 <= next,
        next + images.len() <= u32::MAX,
        first_known(unique, images[i], 0) is Some,
        forall|j: int|
            0 <= j < unique.len() ==> (#[trigger] outputs[j]) is Some && outputs[j]->0.id < next
                && outputs[j]->0.len <= u32::MAX,
    ensures
        ({
            let copy = copied_images(unique, outputs, images, next, n)[i];
            let after = run(m, image_copies(p, unique, outputs, images, next, n));
            &&& copied_images(unique, outputs, images, next, n).len() == n
            &&& exists|j: int|
                {
                    &&& 0 <= j < unique.len()
                    &&& images[i].same_pixels(#[trigger] unique[j])
                    &&& copy.len == outputs[j]->0.len
                    &&& after[copy.id] == (Value::Patched {
                        from: 0,
                        to: 0,
                        count: (copy.len as int / 4) as u32,
                        new: Box::new(run(m, p)[outputs[j]->0.id]),
                        old: Box::new(run(m, p)[copy.id]),
                    })
                }
        }),
    decreases n,
{
    lemma_shared_names();
    lemma_copied_len(unique, outputs, images, next, n - 1);
    if i < n - 1 {
        prompts_get_copies_of_their_own_images(m, p, unique, outputs, images, next, n - 1, i);
        lemma_copied_id(unique, outputs, images, next, n - 1, i);
    } else {
        lemma_first_known(unique, images[i], 0);
        let j = first_known(unique, images[i], 0)->0;
        let from = outputs[j]->0;
        assert(outputs[j] is Some);
        lemma_copied(m, p, unique, outputs, images, next, n - 1, from.id);
        lemma_copied(m, p, unique, outputs, images, next, n - 1, (next + i) as u32);
        lemma_ceil_div(from.len as int / 4, 256);
        assert(images[i].same_pixels(unique[j]));
    }
}

proof fn lemma_copied_len(unique: Seq<Key>, outputs: Seq<Option<Buffer>>, images: Seq<Key>, next: int, n: int)
    requires
        0 <= n,
    ensures
        copied_images(unique, outputs, images, next, n).len() == n,
    decreases n,
{
    if n > 0 {
        lemma_copied_len(unique, outputs, images, next, n - 1);
    }
}

proof fn lemma_copied_id(unique: Seq<Key>, outputs: Seq<Option<Buffer>>, images: Seq<Key>, next: int, n: int, i: int)
    requires
        0 <= i < n,
    ensures
        copied_images(unique, outputs, images, next, n)[i].id == (next + i) as u32,
    decreases n,
{
    lemma_copied_len(unique, outputs, images, next, n - 1);
    if i < n - 1 {
        lemma_copied_id(unique, outputs, images, next, n - 1, i);
    }
}

} // verus!
