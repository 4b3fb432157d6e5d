//! Serving: prompts continue the saved prefix, ticks publish what finished,
//! and pages come and go with their sequences.
use vstd::prelude::*;
use crate::arith::{min, BLOCK_TOKENS};
use crate::error::{Fault, MetalError};
use crate::nemotron::forward::{first_unsound, lemma_sound, row_sound, Plan};
use crate::nemotron::graph::{Nemotron, Pending, Slot, VOCAB};
use crate::program::{push_write, written, Buffer, Program, Write};
use crate::rows::{count_slot, tokens, visits, Row};
use crate::tables::{
    all_finite, are_finite, copied_tokens, first_tokens, has_start, lemma_slot_tokens, narrow, narrowed,
    padded, push_padded, row_ids, row_meta, row_places, slot_tokens, starts_with,
};

verus! {

/// Weights, planes and limits: everything that serving never changes.
pub open spec fn same_model(a: Nemotron, b: Nemotron) -> bool {
    &&& a.embedding == b.embedding
    &&& a.head == b.head
    &&& a.output_norm == b.output_norm
    &&& a.layers == b.layers
    &&& a.scratch == b.scratch
    &&& a.context == b.context
    &&& a.page_stride == b.page_stride
    &&& a.weight_bytes == b.weight_bytes
    &&& a.cache_bytes == b.cache_bytes
}

pub open spec fn page_table(slots: Seq<Slot>, stride: int, n: int) -> Seq<u32>
    decreases n,
{
    if n <= 0 {
        Seq::empty()
    } else {
        page_table(slots, stride, n - 1) + padded(slots[n - 1].blocks@, stride)
    }
}

/// Slots of the tick whose sequence starts with it, in order.
pub open spec fn fresh(slots: Seq<Slot>, rows: Seq<Row>, n: int) -> Seq<usize>
    decreases n,
{
    if n <= 0 {
        Seq::empty()
    } else {
        let before = fresh(slots, rows, n - 1);
        if slots[n - 1].history.len() == 0 && visits(rows, (n - 1) as usize) {
            before.push((n - 1) as usize)
        } else {
            before
        }
    }
}

#[derive(Debug)]
pub struct Uploads {
    pub ids: Vec<u32>,
    pub meta: Vec<u32>,
    pub pages: Vec<u32>,
    pub outputs: Vec<u32>,
}

/// What happened to the last request for pages.
#[derive(Clone, Copy, Debug, PartialEq, Eq, Structural)]
pub enum PageEvent {
    Ready,
    /// No page was free.
    Full,
    /// No page was free even without the saved prefix.
    StillFull,
}

/// The next thing to do while the rows of a tick get their pages.
#[derive(Debug)]
pub enum PageAction {
    /// Grow the page table of `slot` to hold `position`.
    Grow { slot: usize, position: u32 },
    /// Free these pages of the saved prefix and try again.
    Release(Vec<u32>),
    Refused(MetalError),
    Done,
}

pub open spec fn cleared(s: Slot) -> bool {
    &&& s.blocks@ == Seq::<u32>::empty()
    &&& s.history@ == Seq::<u32>::empty()
    &&& s.reused == 0
}

pub open spec fn lists(v: Seq<Vec<u32>>) -> Seq<Seq<u32>> {
    v.map_values(|l: Vec<u32>| l@)
}

/// Page lists of the idle slots among the first `n`.
pub open spec fn freed(slots: Seq<Slot>, idle: spec_fn(int) -> bool, n: int) -> Seq<Seq<u32>>
    decreases n,
{
    if n <= 0 {
        Seq::empty()
    } else {
        let before = freed(slots, idle, n - 1);
        if idle(n - 1) { before.push(slots[n - 1].blocks@) } else { before }
    }
}

/// A sound tick never grows a sequence past the context.
pub proof fn sound_ticks_stay_in_context(slots: Seq<Slot>, context: usize, rows: Seq<Row>, slot: usize, n: int)
    requires
        0 <= n <= rows.len(),
        slot < slots.len(),
        slots[slot as int].history.len() <= context,
        first_unsound(slots, context, rows, 0) is None,
    ensures
        slots[slot as int].history.len() + count_slot(rows.take(n), slot) <= context,
        slot_tokens(rows.take(n), slot as int).len() == count_slot(rows.take(n), slot),
    decreases n,
{
    lemma_slot_tokens(rows.take(n), slot);
    if n > 0 {
        sound_ticks_stay_in_context(slots, context, rows, slot, n - 1);
        lemma_sound(slots, context, rows, 0, n - 1);
        assert(rows.take(n).drop_last() =~= rows.take(n - 1));
        assert(rows.take(n).last() == rows[n - 1]);
        assert(row_sound(slots, context, rows, n - 1));
    }
}

impl Nemotron {
    pub open spec fn unfinished(&self, slot: usize) -> bool {
        exists|i: int| 0 <= i < self.pending.len() && (#[trigger] self.pending[i]).slot == slot
    }

    pub fn has_pending(&self, slot: usize) -> (r: bool)
        ensures
            r == self.unfinished(slot),
    {
        let mut i: usize = 0;
        while i < self.pending.len()
            invariant
                i <= self.pending.len(),
                forall|j: int| 0 <= j < i ==> (#[trigger] self.pending[j]).slot != slot,
            decreases self.pending.len() - i,
        {
            if self.pending[i].slot == slot {
                return true;
            }
            i = i + 1;
        }
        false
    }

    /// Everything that a tick uploads besides the tables of its plan.
    pub fn uploads(&self, plan: &Plan) -> (r: Uploads)
        requires
            self.wf(),
        ensures
            r.ids@ == tokens(plan.rows@),
            r.meta@ == row_meta(plan.rows@),
            r.outputs@ == narrow(plan.outputs@),
            r.pages@ == page_table(self.slots@, self.page_stride as int, self.slots.len() as int),
    {
        let mut pages: Vec<u32> = Vec::new();
        let mut i: usize = 0;
        while i < self.slots.len()
            invariant
                i <= self.slots.len(),
                pages@ == page_table(self.slots@, self.page_stride as int, i as int),
            decreases self.slots.len() - i,
        {
            push_padded(&mut pages, &self.slots[i].blocks, self.page_stride);
            i = i + 1;
        }
        Uploads {
            ids: row_ids(&plan.rows),
            meta: row_places(&plan.rows),
            pages,
            outputs: narrowed(&plan.outputs),
        }
    }

    /// What is written before a tick runs, and where.
    pub open spec fn tick_writes(&self, plan: Plan) -> Seq<(Buffer, Seq<u32>)> {
        let s = self.scratch;
        seq![
            (s.ids, tokens(plan.rows@)),
            (s.meta, row_meta(plan.rows@)),
            (s.pages, page_table(self.slots@, self.page_stride as int, self.slots.len() as int)),
            (s.output_rows, narrow(plan.outputs@)),
            (s.sequences, plan.sequences@),
            (s.ssd_tiles, plan.ssd_tiles@),
            (s.attention_tiles, plan.attention_tiles@),
            (s.decode_rows, plan.decodes@),
        ]
    }

    /// The writes of a planned tick.
    pub fn writes(&self, plan: &Plan) -> (r: Vec<Write>)
        requires
            self.wf(),
        ensures
            written(r@) == self.tick_writes(*plan),
    {
        let u = self.uploads(plan);
        let s = &self.scratch;
        let mut out: Vec<Write> = Vec::new();
        assert(written(out@) =~= Seq::empty());
        push_write(&mut out, s.ids, &u.ids);
        push_write(&mut out, s.meta, &u.meta);
        push_write(&mut out, s.pages, &u.pages);
        push_write(&mut out, s.output_rows, &u.outputs);
        push_write(&mut out, s.sequences, &plan.sequences);
        push_write(&mut out, s.ssd_tiles, &plan.ssd_tiles);
        push_write(&mut out, s.attention_tiles, &plan.attention_tiles);
        push_write(&mut out, s.decode_rows, &plan.decodes);
        assert(written(out@) =~= self.tick_writes(*plan));
        out
    }

    /// Slots whose recurrent state a tick must zero first: an empty sequence
    /// never inherits the state of an earlier one.
    pub fn fresh_slots(&self, rows: &Vec<Row>) -> (r: Vec<usize>)
        ensures
            r@ == fresh(self.slots@, rows@, self.slots.len() as int),
    {
        let mut out: Vec<usize> = Vec::new();
        let mut i: usize = 0;
        while i < self.slots.len()
            invariant
                i <= self.slots.len(),
                out@ == fresh(self.slots@, rows@, i as int),
            decreases self.slots.len() - i,
        {
            if self.slots[i].history.len() == 0 && visited(rows, i) {
                out.push(i);
            }
            i = i + 1;
        }
        out
    }

    /// Pages for row `next`. The first refusal gives up the saved prefix, the
    /// second is final.
    pub fn reserve_pages(&mut self, rows: &Vec<Row>, next: usize, event: PageEvent) -> (r: PageAction)
        requires
            old(self).wf(),
        ensures
            final(self).wf(),
            same_model(*final(self), *old(self)),
            final(self).slots == old(self).slots,
            final(self).pending == old(self).pending,
            match event {
                PageEvent::Ready => {
                    &&& final(self).prefix == old(self).prefix
                    &&& if next < rows.len() {
                        r == (PageAction::Grow {
                            slot: rows[next as int].slot,
                            position: rows[next as int].position,
                        })
                    } else {
                        r == PageAction::Done
                    }
                },
                PageEvent::Full => {
                    &&& r matches PageAction::Release(list)
                    &&& list@ == old(self).prefix.blocks@
                    &&& final(self).prefix.blocks@ == Seq::<u32>::empty()
                    &&& final(self).prefix.history@ == Seq::<u32>::empty()
                    &&& final(self).prefix.reused == old(self).prefix.reused
                },
                PageEvent::StillFull => {
                    &&& r == PageAction::Refused(MetalError::Memory(Fault::Pages))
                    &&& final(self).prefix == old(self).prefix
                },
            },
    {
        match event {
            PageEvent::Ready => {
                if next < rows.len() {
                    PageAction::Grow { slot: rows[next].slot, position: rows[next].position }
                } else {
                    PageAction::Done
                }
            },
            PageEvent::Full => {
                let mut list: Vec<u32> = Vec::new();
                std::mem::swap(&mut self.prefix.blocks, &mut list);
                self.prefix.history = Vec::new();
                PageAction::Release(list)
            },
            PageEvent::StillFull => PageAction::Refused(MetalError::Memory(Fault::Pages)),
        }
    }

    /// Append a page to the table of a sequence.
    pub fn add_page(&mut self, slot: usize, page: u32)
        requires
            old(self).wf(),
            slot < old(self).slots.len(),
            old(self).slots[slot as int].blocks.len() < old(self).page_stride,
        ensures
            final(self).wf(),
            same_model(*final(self), *old(self)),
            final(self).pending == old(self).pending,
            final(self).prefix == old(self).prefix,
            final(self).slots@ == old(self).slots@.update(slot as int, final(self).slots[slot as int]),
            final(self).slots[slot as int].blocks@ == old(self).slots[slot as int].blocks@.push(page),
            final(self).slots[slot as int].history == old(self).slots[slot as int].history,
            final(self).slots[slot as int].reused == old(self).slots[slot as int].reused,
    {
        let ghost before = self.slots@;
        self.slots[slot].blocks.push(page);
        proof {
            assert forall|i: int| 0 <= i < self.slots.len() implies {
                &&& (#[trigger] self.slots[i]).history.len() <= self.context
                &&& self.slots[i].blocks.len() <= self.page_stride
            } by {
                assert(before[i].history.len() <= self.context);
            }
        }
    }

    /// What is read back once a tick has run: a row of logits for each
    /// output.
    pub fn read_back(&self, plan: &Plan) -> (r: (Buffer, usize))
        requires
            plan.outputs.len() * VOCAB <= usize::MAX,
        ensures
            r == (self.scratch.logits, (plan.outputs.len() * VOCAB) as usize),
    {
        (self.scratch.logits, plan.outputs.len() * VOCAB)
    }

    /// A finished tick: its rows join the histories of their sequences. An
    /// infinite or undefined logit is reported after that.
    pub fn finish(&mut self, plan: &Plan, logits: Vec<u32>) -> (r: Result<Vec<u32>, MetalError>)
        requires
            old(self).wf(),
            old(self).tick_fault(plan.rows@, plan.outputs@) is None,
        ensures
            final(self).wf(),
            same_model(*final(self), *old(self)),
            final(self).pending == old(self).pending,
            final(self).prefix == old(self).prefix,
            final(self).slots.len() == old(self).slots.len(),
            forall|s: int|
                0 <= s < old(self).slots.len() ==> {
                    &&& (#[trigger] final(self).slots[s]).history@ == old(self).slots[s].history@
                        + slot_tokens(plan.rows@, s)
                    &&& final(self).slots[s].blocks == old(self).slots[s].blocks
                    &&& final(self).slots[s].reused == old(self).slots[s].reused
                },
            r == if all_finite(logits@) {
                Ok::<Vec<u32>, MetalError>(logits)
            } else {
                Err::<Vec<u32>, MetalError>(MetalError::Model(Fault::Nonfinite))
            },
    {
        let rows = &plan.rows;
        let ghost before = self.slots@;
        let context: usize = self.context;
        let mut i: usize = 0;
        proof {
            assert(rows@.take(0) =~= Seq::<Row>::empty());
            assert forall|s: int| 0 <= s < before.len() implies (#[trigger] before[s]).history@
                == before[s].history@ + slot_tokens(rows@.take(0), s) by {
                assert(before[s].history@ + Seq::<u32>::empty() =~= before[s].history@);
            }
            assert forall|k: int| 0 <= k < rows.len() implies (#[trigger] rows[k]).slot
                < before.len() by {
                lemma_sound(before, context, rows@, 0, k);
                assert(row_sound(before, context, rows@, k));
            }
        }
        while i < rows.len()
            invariant
                i <= rows.len(),
                forall|k: int| 0 <= k < rows.len() ==> (#[trigger] rows[k]).slot < before.len(),
                before == old(self).slots@,
                same_model(*self, *old(self)),
                self.pending == old(self).pending,
                self.prefix == old(self).prefix,
                self.slots.len() == before.len(),
                forall|s: int|
                    0 <= s < before.len() ==> {
                        &&& (#[trigger] self.slots[s]).history@ == before[s].history@ + slot_tokens(
                            rows@.take(i as int),
                            s,
                        )
                        &&& self.slots[s].blocks == before[s].blocks
                        &&& self.slots[s].reused == before[s].reused
                    },
            decreases rows.len() - i,
        {
            let row = rows[i];
            let ghost mid = self.slots@;
            self.slots[row.slot].history.push(row.token);
            proof {
                assert(rows@.take(i + 1).drop_last() =~= rows@.take(i as int));
                assert(rows@.take(i + 1).last() == row);
                assert forall|s: int| 0 <= s < before.len() implies {
                    &&& (#[trigger] self.slots[s]).history@ == before[s].history@ + slot_tokens(
                        rows@.take(i + 1),
                        s,
                    )
                    &&& self.slots[s].blocks == before[s].blocks
                    &&& self.slots[s].reused == before[s].reused
                } by {
                    assert(mid[s].blocks == before[s].blocks);
                    if s == row.slot {
                        assert(self.slots[s].history@ == mid[s].history@.push(row.token));
                        assert(self.slots[s].history@ =~= before[s].history@ + slot_tokens(
                            rows@.take(i + 1),
                            s,
                        ));
                    } else {
                        assert(self.slots[s] == mid[s]);
                    }
                }
            }
            i = i + 1;
        }
        proof {
            assert(rows@.take(rows.len() as int) =~= rows@);
            assert forall|s: int| 0 <= s < self.slots.len() implies {
                &&& (#[trigger] self.slots[s]).history.len() <= self.context
                &&& self.slots[s].blocks.len() <= self.page_stride
            } by {
                assert(before[s].history.len() <= context);
                sound_ticks_stay_in_context(before, context, rows@, s as usize, rows.len() as int);
            }
        }
        if are_finite(&logits) {
            Ok(logits)
        } else {
            Err(MetalError::Model(Fault::Nonfinite))
        }
    }
}

fn visited(rows: &Vec<Row>, slot: usize) -> (r: bool)
    ensures
        r == visits(rows@, slot),
{
    let mut i: usize = 0;
    while i < rows.len()
        invariant
            i <= rows.len(),
            forall|j: int| 0 <= j < i ==> (#[trigger] rows[j]).slot != slot,
        decreases rows.len() - i,
    {
        if rows[i].slot == slot {
            return true;
        }
        i = i + 1;
    }
    false
}

impl Nemotron {
    pub open spec fn prompt_valid(&self, slot: usize, tokens: Seq<u32>) -> bool {
        &&& slot < self.slots.len()
        &&& 0 < tokens.len() <= self.context
        &&& forall|i: int| 0 <= i < tokens.len() ==> #[trigger] tokens[i] < VOCAB
    }

    /// Tokens of the saved prefix that a prompt continues.
    pub open spec fn reusable(&self, tokens: Seq<u32>) -> int {
        if 0 < self.prefix.history.len() < tokens.len() && starts_with(tokens, self.prefix.history@) {
            self.prefix.history.len() as int
        } else {
            0
        }
    }

    /// Admit a prompt: how much of it the saved prefix covers, and the
    /// program that gives its slot the state of that prefix or a blank one.
    pub fn prepare(&self, slot: usize, tokens: &Vec<u32>) -> (r: Result<(usize, Program), MetalError>)
        requires
            self.wf(),
        ensures
            if self.prompt_valid(slot, tokens@) {
                &&& r matches Ok((n, cmd))
                &&& n == self.reusable(tokens@)
                &&& cmd@ == Self::state_steps(
                    Seq::empty(),
                    self.layers@,
                    slot,
                    if n > 0 { Some(self.slots.len()) } else { None },
                )
            } else {
                r == Err::<(usize, Program), MetalError>(MetalError::Model(Fault::Prompt))
            },
    {
        if slot >= self.slots.len() || tokens.len() == 0 || tokens.len() > self.context {
            return Err(MetalError::Model(Fault::Prompt));
        }
        let mut i: usize = 0;
        while i < tokens.len()
            invariant
                i <= tokens.len(),
                forall|j: int| 0 <= j < i ==> #[trigger] tokens[j] < VOCAB,
            decreases tokens.len() - i,
        {
            if tokens[i] as usize >= VOCAB {
                return Err(MetalError::Model(Fault::Prompt));
            }
            i = i + 1;
        }
        let n: usize = if self.prefix.history.len() > 0 && self.prefix.history.len() < tokens.len()
            && has_start(tokens, &self.prefix.history) {
            self.prefix.history.len()
        } else {
            0
        };
        let mut cmd = Program::new();
        self.copy_state(&mut cmd, slot, if n > 0 { Some(self.slots.len()) } else { None });
        Ok((n, cmd))
    }

    /// Start a prompt once its state is in place. The pages that its slot
    /// held come back.
    pub fn adopt(&mut self, slot: usize, tokens: &Vec<u32>) -> (r: (usize, Vec<u32>))
        requires
            old(self).wf(),
            old(self).prompt_valid(slot, tokens@),
        ensures
            final(self).wf(),
            same_model(*final(self), *old(self)),
            final(self).pending == old(self).pending,
            final(self).prefix == old(self).prefix,
            final(self).slots@ == old(self).slots@.update(slot as int, final(self).slots[slot as int]),
            r.0 == old(self).reusable(tokens@),
            r.1@ == old(self).slots[slot as int].blocks@,
            final(self).slots[slot as int].reused == r.0,
            final(self).slots[slot as int].history@ == tokens@.take(r.0 as int),
            final(self).slots[slot as int].blocks@ == if r.0 > 0 {
                old(self).prefix.blocks@
            } else {
                Seq::<u32>::empty()
            },
    {
        let ghost before = self.slots@;
        let n: usize = if self.prefix.history.len() > 0 && self.prefix.history.len() < tokens.len()
            && has_start(tokens, &self.prefix.history) {
            self.prefix.history.len()
        } else {
            0
        };
        let mut blocks: Vec<u32> = if n > 0 {
            copied_tokens(&self.prefix.blocks)
        } else {
            Vec::new()
        };
        std::mem::swap(&mut self.slots[slot].blocks, &mut blocks);
        self.slots[slot].history = first_tokens(tokens, n);
        self.slots[slot].reused = n;
        proof {
            assert forall|i: int| 0 <= i < self.slots.len() implies {
                &&& (#[trigger] self.slots[i]).history.len() <= self.context
                &&& self.slots[i].blocks.len() <= self.page_stride
            } by {
                assert(before[i].history.len() <= self.context);
            }
        }
        (n, blocks)
    }

    /// Only whole pages are saved.
    pub open spec fn publishes(&self, slot: int) -> bool {
        let n = self.slots[slot].history.len();
        n > 0 && n % 16 == 0
    }

    /// The program that saves the state of a sequence, where it is due.
    pub fn publish_state(&self, slot: usize) -> (r: Option<Program>)
        requires
            slot < self.slots.len(),
        ensures
            match r {
                Some(cmd) => self.publishes(slot as int) && cmd@ == Self::state_steps(
                    Seq::empty(),
                    self.layers@,
                    self.slots.len(),
                    Some(slot),
                ),
                None => !self.publishes(slot as int),
            },
    {
        let n: usize = self.slots[slot].history.len();
        if n == 0 || n % BLOCK_TOKENS != 0 {
            return None;
        }
        let mut cmd = Program::new();
        self.copy_state(&mut cmd, self.slots.len(), Some(slot));
        Some(cmd)
    }

    /// Replace the saved prefix by a sequence whose state has been saved.
    /// The pages that the prefix held come back.
    pub fn publish(&mut self, slot: usize) -> (r: Vec<u32>)
        requires
            old(self).wf(),
            slot < old(self).slots.len(),
            old(self).publishes(slot as int),
        ensures
            final(self).wf(),
            same_model(*final(self), *old(self)),
            final(self).pending == old(self).pending,
            final(self).slots == old(self).slots,
            r@ == old(self).prefix.blocks@,
            final(self).prefix.history@ == old(self).slots[slot as int].history@,
            final(self).prefix.blocks@ == old(self).slots[slot as int].blocks@,
            final(self).prefix.reused == old(self).prefix.reused,
    {
        assert(self.slots[slot as int].history.len() <= self.context);
        let mut blocks = copied_tokens(&self.slots[slot].blocks);
        std::mem::swap(&mut self.prefix.blocks, &mut blocks);
        self.prefix.history = copied_tokens(&self.slots[slot].history);
        blocks
    }

    pub fn clear_slot(&mut self, slot: usize) -> (r: Vec<u32>)
        requires
            old(self).wf(),
            slot < old(self).slots.len(),
        ensures
            final(self).wf(),
            same_model(*final(self), *old(self)),
            final(self).pending == old(self).pending,
            final(self).prefix == old(self).prefix,
            final(self).slots@ == old(self).slots@.update(slot as int, final(self).slots[slot as int]),
            cleared(final(self).slots[slot as int]),
            r@ == old(self).slots[slot as int].blocks@,
    {
        let ghost before = self.slots@;
        let mut blocks: Vec<u32> = Vec::new();
        std::mem::swap(&mut self.slots[slot].blocks, &mut blocks);
        self.slots[slot].history = Vec::new();
        self.slots[slot].reused = 0;
        proof {
            assert forall|i: int| 0 <= i < self.slots.len() implies {
                &&& (#[trigger] self.slots[i]).history.len() <= self.context
                &&& self.slots[i].blocks.len() <= self.page_stride
            } by {
                assert(before[i].history.len() <= self.context);
            }
        }
        blocks
    }

    pub fn vocab(&self) -> (r: usize)
        ensures
            r == 131072,
    {
        VOCAB
    }

    pub fn max_context(&self) -> (r: usize)
        ensures
            r == self.context,
    {
        self.context
    }

    /// How many sequences of those asked for are served at once.
    pub fn enable_batch(&self, most: usize) -> (r: usize)
        ensures
            r == min(most as int, self.slots.len() as int),
    {
        if most < self.slots.len() {
            most
        } else {
            self.slots.len()
        }
    }

    pub fn weights_mem_bytes(&self) -> (r: u64)
        ensures
            r == self.weight_bytes,
    {
        self.weight_bytes
    }

    pub fn kv_mem_bytes(&self) -> (r: u64)
        ensures
            r == self.cache_bytes,
    {
        self.cache_bytes
    }

    /// The tokens that the slot's prompt did not have to run, told once.
    pub fn take_prefill_reused(&mut self, slot: usize) -> (r: usize)
        requires
            old(self).wf(),
            slot < old(self).slots.len(),
        ensures
            final(self).wf(),
            same_model(*final(self), *old(self)),
            final(self).pending == old(self).pending,
            final(self).prefix == old(self).prefix,
            r == old(self).slots[slot as int].reused,
            final(self).slots@ == old(self).slots@.update(
                slot as int,
                Slot { reused: 0, ..old(self).slots[slot as int] },
            ),
    {
        let ghost before = self.slots@;
        let r: usize = self.slots[slot].reused;
        self.slots[slot].reused = 0;
        proof {
            assert forall|i: int| 0 <= i < self.slots.len() implies {
                &&& (#[trigger] self.slots[i]).history.len() <= self.context
                &&& self.slots[i].blocks.len() <= self.page_stride
            } by {
                assert(before[i].history.len() <= self.context);
            }
        }
        r
    }

    /// Forget every sequence and prompt. The saved prefix stays.
    pub fn reset(&mut self) -> (r: Vec<Vec<u32>>)
        requires
            old(self).wf(),
        ensures
            final(self).wf(),
            same_model(*final(self), *old(self)),
            final(self).pending@ == Seq::<Pending>::empty(),
            final(self).prefix == old(self).prefix,
            final(self).slots.len() == old(self).slots.len(),
            forall|s: int| 0 <= s < old(self).slots.len() ==> cleared(#[trigger] final(self).slots[s]),
            lists(r@) == freed(old(self).slots@, |i: int| true, old(self).slots.len() as int),
    {
        self.pending = Vec::new();
        let occupied: Vec<bool> = Vec::new();
        let ghost mid = *self;
        let r = self.release_inactive_slots(&occupied);
        proof {
            lemma_freed(
                mid.slots@,
                |i: int| mid.idle(occupied@, i),
                |i: int| true,
                mid.slots.len() as int,
            );
        }
        r
    }

    /// A slot that the caller does not occupy and no prompt fills.
    pub open spec fn idle(&self, occupied: Seq<bool>, i: int) -> bool {
        &&& !(i < occupied.len() && occupied[i])
        &&& !self.unfinished(i as usize)
    }

    /// Release every idle slot. The saved prefix survives.
    pub fn release_inactive_slots(&mut self, occupied: &Vec<bool>) -> (r: Vec<Vec<u32>>)
        requires
            old(self).wf(),
        ensures
            final(self).wf(),
            same_model(*final(self), *old(self)),
            final(self).pending == old(self).pending,
            final(self).prefix == old(self).prefix,
            final(self).slots.len() == old(self).slots.len(),
            forall|s: int|
                0 <= s < old(self).slots.len() ==> if old(self).idle(occupied@, s) {
                    cleared(#[trigger] final(self).slots[s])
                } else {
                    final(self).slots[s] == old(self).slots[s]
                },
            lists(r@) == freed(
                old(self).slots@,
                |i: int| old(self).idle(occupied@, i),
                old(self).slots.len() as int,
            ),
    {
        let ghost before = self.slots@;
        let ghost start = *self;
        let ghost idle = |i: int| start.idle(occupied@, i);
        let mut out: Vec<Vec<u32>> = Vec::new();
        let mut i: usize = 0;
        assert(lists(out@) =~= Seq::<Seq<u32>>::empty());
        while i < self.slots.len()
            invariant
                i <= self.slots.len(),
                self.wf(),
                same_model(*self, start),
                self.pending == start.pending,
                self.prefix == start.prefix,
                before == start.slots@,
                self.slots.len() == before.len(),
                idle == (|i: int| start.idle(occupied@, i)),
                forall|s: int|
                    0 <= s < i ==> if start.idle(occupied@, s) {
                        cleared(#[trigger] self.slots[s])
                    } else {
                        self.slots[s] == before[s]
                    },
                forall|s: int| i <= s < before.len() ==> #[trigger] self.slots[s] == before[s],
                lists(out@) == freed(before, idle, i as int),
            decreases self.slots.len() - i,
        {
            let held = i < occupied.len() && occupied[i];
            let ghost mid = self.slots@;
            let ghost lists_before = out@;
            if !held && !self.has_pending(i) {
                assert(start.idle(occupied@, i as int));
                let list = self.clear_slot(i);
                out.push(list);
                proof {
                    assert(mid[i as int] == before[i as int]);
                    assert(lists(out@) =~= lists(lists_before).push(list@));
                    assert forall|s: int| 0 <= s < i + 1 implies if start.idle(occupied@, s) {
                        cleared(#[trigger] self.slots[s])
                    } else {
                        self.slots[s] == before[s]
                    } by {
                        if s < i {
                            assert(self.slots[s] == mid[s]);
                        }
                    }
                }
            } else {
                assert(!start.idle(occupied@, i as int));
            }
            i = i + 1;
        }
        out
    }
}

proof fn lemma_freed(slots: Seq<Slot>, a: spec_fn(int) -> bool, b: spec_fn(int) -> bool, n: int)
    requires
        forall|i: int| 0 <= i < n ==> #[trigger] a(i) == b(i),
    ensures
        freed(slots, a, n) == freed(slots, b, n),
    decreases n,
{
    if n > 0 {
        lemma_freed(slots, a, b, n - 1);
        assert(a(n - 1) == b(n - 1));
    }
}

} // verus!
