//! What changes once device work has finished: histories, saved prefixes and
//! reservations. Nothing here runs before its tick has completed.
use vstd::prelude::*;
use crate::arith::{ceil_div, div_ceil, lemma_product_bound, BLOCK_TOKENS};
use crate::error::{Fault, MetalError};
use crate::program::{kernel, list2, list3, list6, Program, Step};
use crate::qwen35::graph::Graph;
use crate::qwen35::image::{all_wf, copy_images, keys, prefix_matches, ImageKey, Key};
use crate::qwen35::prepare::serves;
use crate::rows::{count_slot, seg_start, tokens, visits, Row};
use crate::qwen35::plan::{
    captures, first_fault, history_at, lemma_rows_sound, slots_valid, taken_view, Plan, Taken,
};
use crate::qwen35::state::{saved, Checkpoint, Qwen35, Released, Saved, Slot};
use crate::tables::{first_tokens, lemma_slot_tokens, slot_tokens, starts_with};

verus! {

/// A slot that differs in its history only.
pub open spec fn same_but_history(a: Slot, b: Slot) -> bool {
    &&& a.cold_consulted == b.cold_consulted
    &&& a.prefill_end == b.prefill_end
    &&& a.blocks == b.blocks
    &&& a.reused == b.reused
    &&& a.cuts == b.cuts
    &&& a.mm == b.mm
}

/// The first `n` saved prefixes as published: pages shared with their
/// sequence, touched one tick after another.
pub open spec fn published(
    cache: Seq<Saved>,
    slots: Seq<Slot>,
    clock: int,
    taken: Seq<Taken>,
    n: int,
) -> Seq<Saved>
    decreases n,
{
    if n <= 0 {
        cache
    } else {
        let t = taken[n - 1];
        let before = published(cache, slots, clock, taken, n - 1);
        before.update(
            t.index,
            Saved {
                reserved: before[t.index].reserved,
                blocks: slots[t.slot as int].blocks@.take(t.history.len() as int / 16),
                history: t.history,
                touched: (clock + n) as u64,
                images: slots[t.slot as int].image_keys(),
            },
        )
    }
}

/// Reservations of the first `n` prefixes lifted.
pub open spec fn unreserved(cache: Seq<Saved>, taken: Seq<Taken>, n: int) -> Seq<Saved>
    decreases n,
{
    if n <= 0 {
        cache
    } else {
        let before = unreserved(cache, taken, n - 1);
        let i = taken[n - 1].index;
        before.update(i, Saved { reserved: false, ..before[i] })
    }
}

/// A sound tick never grows a sequence past the context.
pub proof fn sound_ticks_stay_in_context(
    slots: Seq<Slot>,
    vocab: usize,
    context: usize,
    rows: Seq<Row>,
    slot: usize,
    n: int,
)
    requires
        0 <= n <= rows.len(),
        slot < slots.len(),
        slots[slot as int].history.len() <= context,
        first_fault(slots, vocab, context, rows, 0) is None,
    ensures
        slots[slot as int].history.len() + slot_tokens(rows.take(n), slot as int).len() <= context,
        slot_tokens(rows.take(n), slot as int).len() == count_slot(rows.take(n), slot),
    decreases n,
{
    if n > 0 {
        sound_ticks_stay_in_context(slots, vocab, context, rows, slot, n - 1);
        lemma_rows_sound(slots, vocab, context, rows, 0, n - 1);
        assert(rows.take(n).drop_last() =~= rows.take(n - 1));
        assert(rows.take(n).last() == rows[n - 1]);
    }
}

proof fn lemma_unvisited(rows: Seq<Row>, slot: usize)
    requires
        !visits(rows, slot),
    ensures
        slot_tokens(rows, slot as int) == Seq::<u32>::empty(),
    decreases rows.len(),
{
    if rows.len() > 0 {
        assert(rows[rows.len() - 1].slot != slot);
        assert forall|j: int| 0 <= j < rows.drop_last().len() implies (#[trigger] rows.drop_last()[j]).slot
            != slot by {
            assert(rows[j].slot != slot);
        }
        lemma_unvisited(rows.drop_last(), slot);
    }
}

/// In a sound tick the rows of a sequence so far are its rows in one run.
proof fn lemma_one_run(slots: Seq<Slot>, vocab: usize, context: usize, rows: Seq<Row>, r: int)
    requires
        0 <= r < rows.len(),
        first_fault(slots, vocab, context, rows, 0) is None,
    ensures
        0 <= seg_start(rows, r) <= r,
        slot_tokens(rows.take(r + 1), rows[r].slot as int) == tokens(
            rows.subrange(seg_start(rows, r), r + 1),
        ),
    decreases r,
{
    let slot = rows[r].slot;
    lemma_rows_sound(slots, vocab, context, rows, 0, r);
    assert(rows.take(r + 1).drop_last() =~= rows.take(r));
    assert(rows.take(r + 1).last() == rows[r]);
    if r > 0 && rows[r - 1].slot == slot {
        lemma_one_run(slots, vocab, context, rows, r - 1);
        let first = seg_start(rows, r - 1);
        assert(tokens(rows.subrange(first, r + 1)) =~= tokens(rows.subrange(first, r)).push(rows[r].token));
    } else {
        lemma_unvisited(rows.take(r), slot);
        assert(tokens(rows.subrange(r, r + 1)) =~= Seq::<u32>::empty().push(rows[r].token));
    }
}

proof fn lemma_tokens_grow(rows: Seq<Row>, slot: int, n: int)
    requires
        0 <= n <= rows.len(),
    ensures
        ({
            let a = slot_tokens(rows.take(n), slot);
            let b = slot_tokens(rows, slot);
            a.len() <= b.len() && b.take(a.len() as int) == a
        }),
    decreases rows.len(),
{
    if n == rows.len() {
        assert(rows.take(n) =~= rows);
        let a = slot_tokens(rows, slot);
        assert(a.take(a.len() as int) =~= a);
    } else {
        lemma_tokens_grow(rows.drop_last(), slot, n);
        assert(rows.drop_last().take(n) =~= rows.take(n));
        let a = slot_tokens(rows.take(n), slot);
        let m = slot_tokens(rows.drop_last(), slot);
        assert(slot_tokens(rows, slot).take(a.len() as int) =~= m.take(a.len() as int));
    }
}

/// What a tick saves of a sequence is a beginning of what the sequence holds
/// after the tick, and ends at one of its cuts.
pub proof fn saved_prefixes_begin_their_sequence(
    slots: Seq<Slot>,
    vocab: usize,
    context: usize,
    verifying: bool,
    rows: Seq<Row>,
    cache: Seq<Saved>,
    n: int,
)
    requires
        0 <= n <= rows.len(),
        first_fault(slots, vocab, context, rows, 0) is None,
    ensures
        ({
            let taken = captures(slots, verifying, rows, cache, n).taken;
            forall|i: int|
                0 <= i < taken.len() ==> {
                    let t = #[trigger] taken[i];
                    let held = slots[t.slot as int].history@ + slot_tokens(rows, t.slot as int);
                    &&& t.slot < slots.len()
                    &&& t.history.len() <= held.len()
                    &&& t.history == held.take(t.history.len() as int)
                    &&& slots[t.slot as int].cuts@.contains(t.history.len() as usize)
                }
        }),
    decreases n,
{
    if n > 0 {
        saved_prefixes_begin_their_sequence(slots, vocab, context, verifying, rows, cache, n - 1);
        let r = n - 1;
        let slot = rows[r].slot;
        let before = captures(slots, verifying, rows, cache, n - 1).taken;
        let after = captures(slots, verifying, rows, cache, n).taken;
        lemma_rows_sound(slots, vocab, context, rows, 0, r);
        lemma_one_run(slots, vocab, context, rows, r);
        lemma_tokens_grow(rows, slot as int, r + 1);
        assert(rows.take(r + 1).drop_last() =~= rows.take(r));
        assert(rows.take(r + 1).last() == rows[r]);
        lemma_slot_tokens(rows.take(r), slot);
        let h = slots[slot as int].history@;
        let run = slot_tokens(rows.take(r + 1), slot as int);
        let held = h + slot_tokens(rows, slot as int);
        let history = history_at(slots, rows, r);
        assert(history == h + run);
        assert(held.take(history.len() as int) =~= h + slot_tokens(rows, slot as int).take(run.len() as int));
        assert(history.len() == rows[r].position + 1);
        assert forall|i: int| 0 <= i < after.len() implies {
            let t = #[trigger] after[i];
            let held = slots[t.slot as int].history@ + slot_tokens(rows, t.slot as int);
            &&& t.slot < slots.len()
            &&& t.history.len() <= held.len()
            &&& t.history == held.take(t.history.len() as int)
            &&& slots[t.slot as int].cuts@.contains(t.history.len() as usize)
        } by {
            if i < before.len() {
                assert(after[i] == before[i]);
            }
        }
    }
}

proof fn lemma_published(cache: Seq<Saved>, slots: Seq<Slot>, clock: int, taken: Seq<Taken>, n: int, i: int)
    requires
        0 <= i < n <= taken.len(),
        forall|a: int| 0 <= a < taken.len() ==> 0 <= (#[trigger] taken[a]).index < cache.len(),
        forall|a: int, b: int|
            0 <= a < b < taken.len() ==> (#[trigger] taken[a]).index != (#[trigger] taken[b]).index,
    ensures
        published(cache, slots, clock, taken, n).len() == cache.len(),
        ({
            let c = published(cache, slots, clock, taken, n)[taken[i].index];
            &&& c.history == taken[i].history
            &&& c.blocks == slots[taken[i].slot as int].blocks@.take(taken[i].history.len() as int / 16)
            &&& c.images == slots[taken[i].slot as int].image_keys()
        }),
    decreases n,
{
    lemma_published_len(cache, slots, clock, taken, n - 1);
    if i < n - 1 {
        lemma_published(cache, slots, clock, taken, n - 1, i);
    }
}

proof fn lemma_published_len(cache: Seq<Saved>, slots: Seq<Slot>, clock: int, taken: Seq<Taken>, n: int)
    requires
        n <= taken.len(),
        forall|a: int| 0 <= a < taken.len() ==> 0 <= (#[trigger] taken[a]).index < cache.len(),
    ensures
        published(cache, slots, clock, taken, n).len() == cache.len(),
    decreases n,
{
    if n > 0 {
        lemma_published_len(cache, slots, clock, taken, n - 1);
    }
}

proof fn lemma_unreserved(cache: Seq<Saved>, taken: Seq<Taken>, n: int, i: int)
    requires
        0 <= n <= taken.len(),
        0 <= i < taken.len(),
        forall|a: int| 0 <= a < taken.len() ==> 0 <= (#[trigger] taken[a]).index < cache.len(),
    ensures
        unreserved(cache, taken, n).len() == cache.len(),
        ({
            let before = cache[taken[i].index];
            let after = unreserved(cache, taken, n)[taken[i].index];
            &&& after == (Saved { reserved: after.reserved, ..before })
            &&& i < n ==> !after.reserved
        }),
    decreases n,
{
    if n > 0 {
        lemma_unreserved(cache, taken, n - 1, i);
    }
}

/// What a finished tick has saved is found again: every prompt that goes on
/// from it, with the same images so far, is served by it, with the pages of
/// the sequence that it was saved from.
pub proof fn finished_prefixes_serve_what_continues_them(
    cache: Seq<Saved>,
    slots: Seq<Slot>,
    clock: int,
    taken: Seq<Taken>,
    i: int,
    prompt: Seq<u32>,
    images: Seq<Key>,
)
    requires
        0 <= i < taken.len(),
        forall|a: int| 0 <= a < taken.len() ==> 0 <= (#[trigger] taken[a]).index < cache.len(),
        forall|a: int, b: int|
            0 <= a < b < taken.len() ==> (#[trigger] taken[a]).index != (#[trigger] taken[b]).index,
        0 < taken[i].history.len() < prompt.len(),
        starts_with(prompt, taken[i].history),
        prefix_matches(
            slots[taken[i].slot as int].image_keys(),
            images,
            taken[i].history.len() as int,
        ),
    ensures
        ({
            let n = taken.len() as int;
            let after = unreserved(published(cache, slots, clock, taken, n), taken, n);
            let c = after[taken[i].index];
            &&& serves(c, prompt, images)
            &&& c.history == taken[i].history
            &&& c.blocks == slots[taken[i].slot as int].blocks@.take(taken[i].history.len() as int / 16)
        }),
{
    let n = taken.len() as int;
    lemma_published(cache, slots, clock, taken, n, i);
    lemma_unreserved(published(cache, slots, clock, taken, n), taken, n, i);
}

impl Qwen35 {
    /// A finished plan can be published: every sequence stays in the context
    /// and owns the pages of its saved prefixes.
    pub open spec fn publishable(&self, plan: Plan) -> bool {
        &&& !self.graph.verifying
        &&& slots_valid(self.slots@, plan.rows@)
        &&& forall|s: int|
            0 <= s < self.slots.len() ==> (#[trigger] self.slots[s]).history.len() + slot_tokens(
                plan.rows@,
                s,
            ).len() <= self.graph.context
        &&& self.clock + plan.checkpoints.len() <= u64::MAX
        &&& forall|i: int|
            0 <= i < plan.checkpoints.len() ==> {
                let c = #[trigger] plan.checkpoints[i];
                &&& c.index < self.cache.len()
                &&& c.slot < self.slots.len()
                &&& c.history.len() <= self.graph.context
                &&& c.history.len() as int / 16 <= self.slots[c.slot as int].blocks.len()
            }
    }

    fn push_tokens(&mut self, rows: &Vec<Row>)
        requires
            old(self).wf(),
            slots_valid(old(self).slots@, rows@),
            forall|s: int|
                0 <= s < old(self).slots.len() ==> (#[trigger] old(self).slots[s]).history.len()
                    + slot_tokens(rows@, s).len() <= old(self).graph.context,
        ensures
            final(self).wf(),
            final(self).graph == old(self).graph,
            final(self).cache == old(self).cache,
            final(self).clock == old(self).clock,
            final(self).pending == old(self).pending,
            final(self).uncommitted == old(self).uncommitted,
            final(self).slots.len() == old(self).slots.len(),
            forall|s: int|
                0 <= s < old(self).slots.len() ==> {
                    &&& same_but_history(#[trigger] final(self).slots[s], old(self).slots[s])
                    &&& final(self).slots[s].history@ == old(self).slots[s].history@ + slot_tokens(
                        rows@,
                        s,
                    )
                },
    {
        let ghost before = old(self).slots@;
        let mut i: usize = 0;
        proof {
            assert(rows@.take(0) =~= Seq::<Row>::empty());
            assert forall|s: int| 0 <= s < before.len() implies (#[trigger] before[s]).history@
                == before[s].history@ + slot_tokens(rows@.take(0), s) by {
                assert(before[s].history@ + Seq::<u32>::empty() =~= before[s].history@);
            }
        }
        while i < rows.len()
            invariant
                i <= rows.len(),
                slots_valid(before, rows@),
                before == old(self).slots@,
                self.graph == old(self).graph,
                self.cache == old(self).cache,
                self.clock == old(self).clock,
                self.pending == old(self).pending,
                self.uncommitted == old(self).uncommitted,
                self.slots.len() == before.len(),
                forall|s: int|
                    0 <= s < before.len() ==> {
                        &&& same_but_history(#[trigger] self.slots[s], before[s])
                        &&& self.slots[s].history@ == before[s].history@ + slot_tokens(
                            rows@.take(i as int),
                            s,
                        )
                    },
            decreases rows.len() - i,
        {
            let row = rows[i];
            let ghost mid = self.slots@;
            assert(row.slot < before.len());
            self.slots[row.slot].history.push(row.token);
            proof {
                assert(rows@.take(i + 1).drop_last() =~= rows@.take(i as int));
                assert(rows@.take(i + 1).last() == row);
                assert forall|s: int| 0 <= s < before.len() implies {
                    &&& same_but_history(#[trigger] self.slots[s], before[s])
                    &&& self.slots[s].history@ == before[s].history@ + slot_tokens(
                        rows@.take(i + 1),
                        s,
                    )
                } by {
                    assert(same_but_history(mid[s], before[s]));
                    if s == row.slot {
                        assert(self.slots[s].history@ == mid[s].history@.push(row.token));
                        assert(self.slots[s].history@ =~= before[s].history@ + slot_tokens(
                            rows@.take(i + 1),
                            s,
                        ));
                    } else {
                        assert(self.slots[s] == mid[s]);
                    }
                }
            }
            i = i + 1;
        }
        proof {
            assert(rows@.take(rows.len() as int) =~= rows@);
            assert forall|s: int| 0 <= s < self.slots.len() implies (#[trigger] self.slots[s]).wf(
                &self.graph,
            ) by {
                assert(before[s].wf(&self.graph));
                assert(same_but_history(self.slots[s], before[s]));
            }
        }
    }

    fn slot_keys(&self, slot: usize) -> (r: Vec<ImageKey>)
        requires
            self.wf(),
            slot < self.slots.len(),
        ensures
            keys(r@) == self.slots[slot as int].image_keys(),
            all_wf(r@),
    {
        assert(self.slots[slot as int].wf(&self.graph));
        match &self.slots[slot].mm {
            Some(m) => copy_images(&m.keys),
            None => {
                let r: Vec<ImageKey> = Vec::new();
                assert(keys(r@) =~= Seq::<Key>::empty());
                r
            },
        }
    }

    /// Publish a finished plan: histories grow by their rows, and every saved
    /// prefix becomes readable with the pages of its sequence.
    pub fn publish(&mut self, plan: &Plan)
        requires
            old(self).wf(),
            old(self).publishable(*plan),
        ensures
            final(self).wf(),
            final(self).graph == old(self).graph,
            final(self).pending == old(self).pending,
            final(self).uncommitted == old(self).uncommitted,
            final(self).clock == old(self).clock + plan.checkpoints.len(),
            final(self).slots.len() == old(self).slots.len(),
            forall|s: int|
                0 <= s < old(self).slots.len() ==> {
                    &&& same_but_history(#[trigger] final(self).slots[s], old(self).slots[s])
                    &&& final(self).slots[s].history@ == old(self).slots[s].history@ + slot_tokens(
                        plan.rows@,
                        s,
                    )
                },
            final(self).checkpoints() == published(
                old(self).checkpoints(),
                old(self).slots@,
                old(self).clock as int,
                taken_view(plan.checkpoints@),
                plan.checkpoints.len() as int,
            ),
    {
        let ghost start = old(self).checkpoints();
        let ghost clock = old(self).clock as int;
        let ghost slots = old(self).slots@;
        let ghost taken = taken_view(plan.checkpoints@);
        self.push_tokens(&plan.rows);
        let ghost grown = self.slots@;
        let mut i: usize = 0;
        while i < plan.checkpoints.len()
            invariant
                i <= plan.checkpoints.len(),
                self.wf(),
                old(self).publishable(*plan),
                self.graph == old(self).graph,
                self.pending == old(self).pending,
                self.uncommitted == old(self).uncommitted,
                self.slots@ == grown,
                grown.len() == slots.len(),
                slots == old(self).slots@,
                forall|s: int| 0 <= s < slots.len() ==> same_but_history(#[trigger] grown[s], slots[s]),
                self.cache.len() == old(self).cache.len(),
                clock == old(self).clock,
                self.clock == clock + i,
                taken == taken_view(plan.checkpoints@),
                self.checkpoints() == published(start, slots, clock, taken, i as int),
            decreases plan.checkpoints.len() - i,
        {
            let c = &plan.checkpoints[i];
            let ghost before = self.checkpoints();
            proof {
                assert(taken[i as int] == plan.checkpoints[i as int]@);
                assert(same_but_history(grown[c.slot as int], slots[c.slot as int]));
                assert(self.slots[c.slot as int] == grown[c.slot as int]);
                assert(before[c.index as int] == self.cache[c.index as int]@);
            }
            let n: usize = c.history.len() / BLOCK_TOKENS;
            let blocks = first_tokens(&self.slots[c.slot].blocks, n);
            let history = first_tokens(&c.history, c.history.len());
            assert(c.history@.take(c.history.len() as int) =~= c.history@);
            let images = self.slot_keys(c.slot);
            self.clock = self.clock + 1;
            let ghost entries = self.cache@;
            let entry = Checkpoint {
                reserved: self.cache[c.index].reserved,
                blocks,
                history,
                touched: self.clock,
                images,
            };
            let ghost e = entry;
            self.cache[c.index] = entry;
            proof {
                assert(self.cache@ == entries.update(c.index as int, e));
                assert(self.checkpoints() =~= before.update(c.index as int, e@));
                assert forall|k: int| 0 <= k < self.cache.len() implies all_wf(
                    (#[trigger] self.cache[k]).images@,
                ) && self.cache[k].history.len() <= self.graph.context by {
                    if k != c.index {
                        assert(self.cache[k] == entries[k]);
                    }
                }
            }
            i = i + 1;
        }
    }

    /// Lift the reservations of a plan, finished or failed.
    pub fn unreserve_plan(&mut self, plan: &Plan)
        requires
            old(self).wf(),
            forall|i: int|
                0 <= i < plan.checkpoints.len() ==> (#[trigger] plan.checkpoints[i]).index
                    < old(self).cache.len(),
        ensures
            final(self).wf(),
            final(self).graph == old(self).graph,
            final(self).slots == old(self).slots,
            final(self).clock == old(self).clock,
            final(self).pending == old(self).pending,
            final(self).uncommitted == old(self).uncommitted,
            final(self).checkpoints() == unreserved(
                old(self).checkpoints(),
                taken_view(plan.checkpoints@),
                plan.checkpoints.len() as int,
            ),
    {
        let ghost taken = taken_view(plan.checkpoints@);
        let mut i: usize = 0;
        while i < plan.checkpoints.len()
            invariant
                i <= plan.checkpoints.len(),
                self.wf(),
                self.graph == old(self).graph,
                self.slots == old(self).slots,
                self.clock == old(self).clock,
                self.pending == old(self).pending,
                self.uncommitted == old(self).uncommitted,
                self.cache.len() == old(self).cache.len(),
                taken == taken_view(plan.checkpoints@),
                forall|i: int|
                    0 <= i < plan.checkpoints.len() ==> (#[trigger] plan.checkpoints[i]).index
                        < old(self).cache.len(),
                self.checkpoints() == unreserved(old(self).checkpoints(), taken, i as int),
            decreases plan.checkpoints.len() - i,
        {
            let index: usize = plan.checkpoints[i].index;
            let ghost before = self.checkpoints();
            let ghost entries = self.cache@;
            proof {
                assert(taken[i as int] == plan.checkpoints[i as int]@);
                assert(before[index as int] == self.cache[index as int]@);
            }
            self.cache[index].reserved = false;
            proof {
                assert(self.checkpoints() =~= before.update(
                    index as int,
                    Saved { reserved: false, ..before[index as int] },
                ));
                assert forall|k: int| 0 <= k < self.cache.len() implies all_wf(
                    (#[trigger] self.cache[k]).images@,
                ) && self.cache[k].history.len() <= self.graph.context by {
                    if k != index {
                        assert(self.cache[k] == entries[k]);
                    }
                }
            }
            i = i + 1;
        }
    }

    /// Continue a prompt from a saved prefix whose state has been copied.
    pub fn adopt(&mut self, slot: usize, matched: Option<usize>) -> (reused: usize)
        requires
            old(self).wf(),
            slot < old(self).slots.len(),
            matched matches Some(i) ==> i < old(self).cache.len() && old(self).clock < u64::MAX
                && old(self).cache[i as int].blocks.len() <= old(self).graph.page_stride,
        ensures
            final(self).wf(),
            final(self).graph == old(self).graph,
            final(self).pending == old(self).pending,
            final(self).uncommitted == old(self).uncommitted,
            final(self).slots.len() == old(self).slots.len(),
            forall|s: int|
                0 <= s < old(self).slots.len() && s != slot ==> #[trigger] final(self).slots[s]
                    == old(self).slots[s],
            final(self).slots[slot as int].reused == reused,
            final(self).slots[slot as int].cold_consulted == old(self).slots[slot as int].cold_consulted,
            final(self).slots[slot as int].cuts == old(self).slots[slot as int].cuts,
            final(self).slots[slot as int].mm == old(self).slots[slot as int].mm,
            final(self).slots[slot as int].prefill_end == old(self).slots[slot as int].prefill_end,
            match matched {
                None => {
                    &&& reused == 0
                    &&& final(self).clock == old(self).clock
                    &&& final(self).cache == old(self).cache
                    &&& final(self).slots[slot as int].history == old(self).slots[slot as int].history
                    &&& final(self).slots[slot as int].blocks == old(self).slots[slot as int].blocks
                },
                Some(i) => {
                    let c = old(self).checkpoints()[i as int];
                    &&& reused == c.history.len()
                    &&& final(self).clock == old(self).clock + 1
                    &&& final(self).slots[slot as int].history@ == c.history
                    &&& final(self).slots[slot as int].blocks@ == c.blocks
                    &&& final(self).checkpoints() == old(self).checkpoints().update(
                        i as int,
                        Saved { touched: final(self).clock, ..c },
                    )
                },
            },
    {
        assert(self.slots[slot as int].wf(&self.graph));
        match matched {
            None => {
                self.slots[slot].reused = 0;
                0
            },
            Some(i) => {
                let ghost before = self.checkpoints();
                let ghost entries = self.cache@;
                assert(before[i as int] == self.cache[i as int]@);
                assert(self.cache[i as int].history.len() <= self.graph.context);
                let n: usize = self.cache[i].history.len();
                let history = first_tokens(&self.cache[i].history, n);
                let blocks = first_tokens(&self.cache[i].blocks, self.cache[i].blocks.len());
                proof {
                    assert(self.cache[i as int].history@.take(n as int) =~= before[i as int].history);
                    assert(self.cache[i as int].blocks@.take(
                        self.cache[i as int].blocks.len() as int,
                    ) =~= before[i as int].blocks);
                }
                self.clock = self.clock + 1;
                self.cache[i].touched = self.clock;
                self.slots[slot].history = history;
                self.slots[slot].blocks = blocks;
                self.slots[slot].reused = n;
                proof {
                    assert(self.checkpoints() =~= before.update(
                        i as int,
                        Saved { touched: self.clock, ..before[i as int] },
                    ));
                    assert forall|k: int| 0 <= k < self.cache.len() implies all_wf(
                        (#[trigger] self.cache[k]).images@,
                    ) && self.cache[k].history.len() <= self.graph.context by {
                        if k != i {
                            assert(self.cache[k] == entries[k]);
                        }
                    }
                }
                n
            },
        }
    }
}

/// The next thing to do while the rows of a tick get their pages.
#[derive(Debug)]
pub enum Reserve {
    /// Grow the page table of `slot` to hold `position`.
    Grow { slot: usize, position: u32 },
    /// A saved prefix was evicted: spill it, free its pages and try again.
    Evicted(Released),
    /// Nothing is left to evict.
    Refused(MetalError),
    Done,
}

impl Qwen35 {
    /// Pages for row `next`. `refused` says that growing its table just
    /// failed; then the least recently touched saved prefix goes.
    pub fn reserve_pages(&mut self, rows: &Vec<Row>, next: usize, refused: bool) -> (r: Reserve)
        requires
            old(self).wf(),
        ensures
            final(self).wf(),
            final(self).graph == old(self).graph,
            final(self).slots == old(self).slots,
            final(self).clock == old(self).clock,
            final(self).pending == old(self).pending,
            final(self).uncommitted == old(self).uncommitted,
            if refused {
                match crate::qwen35::state::victim(
                    old(self).checkpoints(),
                    old(self).cache.len() as int,
                ) {
                    None => r == Reserve::Refused(MetalError::Memory(Fault::Pages)) && final(self).cache
                        == old(self).cache,
                    Some(i) => {
                        &&& r matches Reserve::Evicted(out)
                        &&& out.index == i
                        &&& out.saved@ == old(self).checkpoints()[i]
                        &&& final(self).checkpoints() == old(self).checkpoints().update(
                            i,
                            crate::qwen35::state::emptied(old(self).checkpoints()[i], false),
                        )
                    },
                }
            } else {
                &&& final(self).cache == old(self).cache
                &&& if next < rows.len() {
                    r == (Reserve::Grow {
                        slot: rows[next as int].slot,
                        position: rows[next as int].position,
                    })
                } else {
                    r == Reserve::Done
                }
            },
    {
        if refused {
            match self.evict_checkpoint() {
                Some(out) => Reserve::Evicted(out),
                None => Reserve::Refused(MetalError::Memory(Fault::Pages)),
            }
        } else if next < rows.len() {
            Reserve::Grow { slot: rows[next].slot, position: rows[next].position }
        } else {
            Reserve::Done
        }
    }
}

impl Graph {
    /// Copy recurrent, companion and drafter state from one entry to another.
    pub open spec fn checkpoint_steps(&self, p: Seq<Step>, from: usize, to: usize) -> Seq<Step> {
        let g = self.geometry;
        let width = g.width;
        let p = self.dflash_checkpoint_steps(p, from, to);
        let p = match self.mtp {
            None => p,
            Some(d) => p.push(
                kernel(
                    "spec_copy"@,
                    seq![d.pending, d.pending],
                    seq![(from * width) as u32, (to * width) as u32, width as u32],
                    (ceil_div(width as int, 256), 1, 1),
                    256,
                ),
            ),
        };
        p.push(
            kernel(
                "dn_checkpoint"@,
                seq![self.state, self.conv],
                seq![
                    from as u32,
                    to as u32,
                    self.state_slots as u32,
                    g.state_size() as u32,
                    (g.conv_width() * 3) as u32,
                    g.linear() as u32,
                ],
                (ceil_div(g.linear() * (g.state_size() + g.conv_width() * 3), 256), 1, 1),
                256,
            ),
        )
    }

    pub fn checkpoint_copy(&self, cmd: &mut Program, from: usize, to: usize)
        requires
            self.wf(),
            from < self.state_slots,
            to < self.state_slots,
        ensures
            final(cmd)@ == self.checkpoint_steps(old(cmd)@, from, to),
    {
        let g = self.geometry;
        let width: usize = g.width;
        self.dflash_checkpoint(cmd, from, to);
        if let Some(d) = self.mtp {
            proof {
                lemma_product_bound(from as int, width as int, 1536, 5120);
                lemma_product_bound(to as int, width as int, 1536, 5120);
            }
            cmd.dispatch(
                "spec_copy",
                list2(d.pending, d.pending),
                list3((from * width) as u32, (to * width) as u32, width as u32),
                (div_ceil(width, 256), 1, 1),
                256,
            );
        }
        proof {
            lemma_product_bound(g.linear(), g.state_size() + g.conv_width() * 3, 48, 817152);
        }
        cmd.dispatch(
            "dn_checkpoint",
            list2(self.state, self.conv),
            list6(
                from as u32,
                to as u32,
                self.state_slots as u32,
                g.state() as u32,
                (g.conv() * 3) as u32,
                g.linear_layers() as u32,
            ),
            (div_ceil(g.linear_layers() * (g.state() + g.conv() * 3), 256), 1, 1),
            256,
        );
    }
}

} // verus!
