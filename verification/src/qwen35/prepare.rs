//! Admission of a prompt: which saved prefix it continues and which of its
//! own prefixes are worth saving.
use vstd::prelude::*;
use crate::arith::BLOCK_TOKENS;
use crate::error::{Fault, MetalError};
use crate::qwen35::image::{all_wf, cuts_image, keys, prefix_images_match, prefix_matches, ImageKey, Key};
use crate::tables::{has_start, starts_with};
use crate::qwen35::state::{Layout, Qwen35, Saved, Slot};

verus! {

pub open spec fn image_keys(mm: Option<Layout>) -> Seq<Key> {
    match mm {
        Some(m) => keys(m.keys@),
        None => Seq::empty(),
    }
}

/// A boundary worth saving: at least three pages in, and not inside an image.
pub open spec fn worth(images: Seq<Key>, cut: int) -> bool {
    cut >= 3 * BLOCK_TOKENS && !cuts_image(images, cut)
}

/// The two trailing page boundaries of a prompt of `n` rows.
pub open spec fn trailing_cuts(images: Seq<Key>, n: int) -> Seq<usize> {
    let last = (n - 1) / 16 * 16;
    let before = if last >= 16 { last - 16 } else { 0 };
    (if worth(images, before) { seq![before as usize] } else { Seq::<usize>::empty() }) + (if worth(
        images,
        last,
    ) {
        seq![last as usize]
    } else {
        Seq::<usize>::empty()
    })
}

/// A saved prefix that a prompt can continue.
pub open spec fn serves(c: Saved, tokens: Seq<u32>, images: Seq<Key>) -> bool {
    &&& c.history.len() > 0
    &&& !c.reserved
    &&& c.history.len() < tokens.len()
    &&& starts_with(tokens, c.history)
    &&& prefix_matches(c.images, images, c.history.len() as int)
}

/// The longest saved prefix among the first `n` entries; the later of equals.
pub open spec fn best_prefix(cache: Seq<Saved>, tokens: Seq<u32>, images: Seq<Key>, n: int) -> Option<int>
    decreases n,
{
    if n <= 0 {
        None
    } else {
        let before = best_prefix(cache, tokens, images, n - 1);
        if !serves(cache[n - 1], tokens, images) {
            before
        } else {
            match before {
                Some(i) => if cache[i].history.len() <= cache[n - 1].history.len() {
                    Some(n - 1)
                } else {
                    before
                },
                None => Some(n - 1),
            }
        }
    }
}

/// A prompt continues the longest saved prefix that serves it, and starts
/// over only where none does. What it reuses is exactly its own beginning.
pub proof fn best_prefix_is_longest(cache: Seq<Saved>, tokens: Seq<u32>, images: Seq<Key>, n: int)
    requires
        0 <= n <= cache.len(),
    ensures
        match best_prefix(cache, tokens, images, n) {
            None => forall|j: int| 0 <= j < n ==> !serves(#[trigger] cache[j], tokens, images),
            Some(i) => {
                &&& 0 <= i < n
                &&& serves(cache[i], tokens, images)
                &&& forall|j: int|
                    0 <= j < n && serves(#[trigger] cache[j], tokens, images) ==> cache[j].history.len()
                        <= cache[i].history.len()
            },
        },
    decreases n,
{
    if n > 0 {
        best_prefix_is_longest(cache, tokens, images, n - 1);
    }
}

/// What admission leaves to do: pages to free, and whether the cold tier is
/// still to be asked.
#[derive(Debug)]
pub struct Prepared {
    pub freed: Vec<u32>,
    pub consult: bool,
}

/// A slot emptied for a new prompt; no other slot changes.
pub open spec fn readied(
    before: Qwen35,
    after: Qwen35,
    slot: usize,
    tokens: Seq<u32>,
    mm: Option<Layout>,
    p: Prepared,
) -> bool {
    let was = before.slots[slot as int];
    let now = after.slots[slot as int];
    &&& p.freed@ == was.blocks@
    &&& p.consult == (!was.cold_consulted && mm is None)
    &&& now.blocks@.len() == 0
    &&& now.history@.len() == 0
    &&& now.mm == mm
    &&& now.prefill_end == tokens.len()
    &&& !now.cold_consulted
    &&& now.reused == was.reused
    &&& now.cuts@ == was.cuts@
    &&& after.slots.len() == before.slots.len()
    &&& forall|i: int| 0 <= i < before.slots.len() && i != slot ==> #[trigger] after.slots[i] == before.slots[i]
}

impl Qwen35 {
    pub open spec fn unfinished(&self, slot: usize) -> bool {
        exists|i: int| 0 <= i < self.pending.len() && (#[trigger] self.pending[i]).slot == slot
    }

    pub open spec fn prompt_valid(&self, slot: usize, tokens: Seq<u32>) -> bool {
        &&& slot < self.slots.len()
        &&& 0 < tokens.len() <= self.graph.context
        &&& forall|i: int| 0 <= i < tokens.len() ==> #[trigger] tokens[i] < self.graph.vocab
    }

    /// What a prompt is refused for.
    pub open spec fn prepare_fault(&self, slot: usize, tokens: Seq<u32>) -> Option<Fault> {
        if self.uncommitted {
            Some(Fault::Uncommitted)
        } else if self.unfinished(slot) {
            Some(Fault::Unfinished)
        } else if !self.prompt_valid(slot, tokens) {
            Some(Fault::Prompt)
        } else {
            None
        }
    }

    pub fn has_pending(&self, slot: usize) -> (r: bool)
        ensures
            r == self.unfinished(slot),
    {
        let mut i: usize = 0;
        while i < self.pending.len()
            invariant
                i <= self.pending.len(),
                forall|j: int| 0 <= j < i ==> (#[trigger] self.pending[j]).slot != slot,
            decreases self.pending.len() - i,
        {
            if self.pending[i].slot == slot {
                return true;
            }
            i = i + 1;
        }
        false
    }

    fn valid_prompt(&self, slot: usize, tokens: &Vec<u32>) -> (r: bool)
        ensures
            r == self.prompt_valid(slot, tokens@),
    {
        if slot >= self.slots.len() || tokens.len() == 0 || tokens.len() > self.graph.context {
            return false;
        }
        let mut i: usize = 0;
        while i < tokens.len()
            invariant
                i <= tokens.len(),
                forall|j: int| 0 <= j < i ==> #[trigger] tokens[j] < self.graph.vocab,
            decreases tokens.len() - i,
        {
            if tokens[i] as usize >= self.graph.vocab {
                return false;
            }
            i = i + 1;
        }
        true
    }

    /// Empty a slot for a new prompt. The cold tier is asked only for a text
    /// prompt whose admission has not asked it yet.
    pub fn prepare_mm(&mut self, slot: usize, tokens: &Vec<u32>, mm: Option<Layout>) -> (r: Result<
        Prepared,
        MetalError,
    >)
        requires
            old(self).wf(),
            mm matches Some(m) ==> m.wf(),
        ensures
            final(self).wf(),
            final(self).graph == old(self).graph,
            final(self).cache == old(self).cache,
            final(self).clock == old(self).clock,
            final(self).pending == old(self).pending,
            final(self).uncommitted == old(self).uncommitted,
            match old(self).prepare_fault(slot, tokens@) {
                Some(f) => r == Err::<Prepared, MetalError>(MetalError::Model(f)) && final(self).slots
                    == old(self).slots,
                None => r matches Ok(p) && readied(*old(self), *final(self), slot, tokens@, mm, p),
            },
    {
        if self.uncommitted {
            return Err(MetalError::Model(Fault::Uncommitted));
        }
        if self.has_pending(slot) {
            return Err(MetalError::Model(Fault::Unfinished));
        }
        if !self.valid_prompt(slot, tokens) {
            return Err(MetalError::Model(Fault::Prompt));
        }
        assert(self.slots[slot as int].wf(&self.graph));
        let mut fresh = Slot::new();
        std::mem::swap(&mut self.slots[slot], &mut fresh);
        let consult = !fresh.cold_consulted && mm.is_none();
        self.slots[slot] = Slot {
            cold_consulted: false,
            prefill_end: tokens.len(),
            blocks: Vec::new(),
            history: Vec::new(),
            reused: fresh.reused,
            cuts: fresh.cuts,
            mm,
        };
        Ok(Prepared { freed: fresh.blocks, consult })
    }

    /// A text prompt.
    pub fn prepare(&mut self, slot: usize, tokens: &Vec<u32>) -> (r: Result<Prepared, MetalError>)
        requires
            old(self).wf(),
        ensures
            final(self).wf(),
            match old(self).prepare_fault(slot, tokens@) {
                Some(f) => r == Err::<Prepared, MetalError>(
                    MetalError::Model(
                        if f != Fault::Uncommitted && !old(self).prompt_valid(slot, tokens@) {
                            Fault::Prompt
                        } else {
                            f
                        },
                    ),
                ) && *final(self) == *old(self),
                None => {
                    &&& r matches Ok(p)
                    &&& readied(*old(self), *final(self), slot, tokens@, None, p)
                    &&& final(self).graph == old(self).graph
                    &&& final(self).cache == old(self).cache
                    &&& final(self).clock == old(self).clock
                    &&& final(self).pending == old(self).pending
                    &&& final(self).uncommitted == old(self).uncommitted
                },
            },
    {
        if self.uncommitted {
            return Err(MetalError::Model(Fault::Uncommitted));
        }
        if !self.valid_prompt(slot, tokens) {
            return Err(MetalError::Model(Fault::Prompt));
        }
        self.prepare_mm(slot, tokens, None)
    }

    fn cuts(&self, slot: usize, n: usize) -> (r: Vec<usize>)
        requires
            self.wf(),
            slot < self.slots.len(),
            0 < n,
        ensures
            r@ == trailing_cuts(image_keys(self.slots[slot as int].mm), n as int),
            r.len() <= 2,
    {
        let last: usize = (n - 1) / 16 * 16;
        let before: usize = if last >= 16 { last - 16 } else { 0 };
        let mut out: Vec<usize> = Vec::new();
        assert(self.slots[slot as int].wf(&self.graph));
        let ghost images = image_keys(self.slots[slot as int].mm);
        if before >= 3 * BLOCK_TOKENS && !self.inside(slot, before) {
            out.push(before);
        }
        let ghost half = out@;
        assert(half =~= (if worth(images, before as int) {
            seq![before]
        } else {
            Seq::<usize>::empty()
        }));
        if last >= 3 * BLOCK_TOKENS && !self.inside(slot, last) {
            out.push(last);
        }
        assert(out@ =~= trailing_cuts(images, n as int));
        out
    }

    fn inside(&self, slot: usize, cut: usize) -> (r: bool)
        requires
            self.wf(),
            slot < self.slots.len(),
        ensures
            r == cuts_image(image_keys(self.slots[slot as int].mm), cut as int),
    {
        assert(self.slots[slot as int].wf(&self.graph));
        match &self.slots[slot].mm {
            Some(m) => m.inside_image(cut),
            None => false,
        }
    }

    fn serves_slot(&self, i: usize, slot: usize, tokens: &Vec<u32>) -> (r: bool)
        requires
            self.wf(),
            slot < self.slots.len(),
            i < self.cache.len(),
        ensures
            r == serves(self.cache[i as int]@, tokens@, image_keys(self.slots[slot as int].mm)),
    {
        let c = &self.cache[i];
        assert(self.slots[slot as int].wf(&self.graph));
        assert(all_wf(self.cache[i as int].images@));
        if c.history.len() == 0 || c.reserved || c.history.len() >= tokens.len() || !has_start(
            tokens,
            &c.history,
        ) {
            return false;
        }
        match &self.slots[slot].mm {
            Some(m) => prefix_images_match(&c.images, &m.keys, c.history.len()),
            None => {
                let none: Vec<ImageKey> = Vec::new();
                assert(keys(none@) =~= Seq::<Key>::empty());
                prefix_images_match(&c.images, &none, c.history.len())
            },
        }
    }

    /// Choose the boundaries to save and the saved prefix to continue.
    pub fn match_prefix(&mut self, slot: usize, tokens: &Vec<u32>) -> (r: Option<usize>)
        requires
            old(self).wf(),
            slot < old(self).slots.len(),
            0 < tokens.len(),
        ensures
            final(self).wf(),
            final(self).graph == old(self).graph,
            final(self).cache == old(self).cache,
            final(self).clock == old(self).clock,
            final(self).pending == old(self).pending,
            final(self).uncommitted == old(self).uncommitted,
            final(self).slots.len() == old(self).slots.len(),
            forall|i: int|
                0 <= i < old(self).slots.len() && i != slot ==> #[trigger] final(self).slots[i]
                    == old(self).slots[i],
            ({
                let before = old(self).slots[slot as int];
                let after = final(self).slots[slot as int];
                let images = image_keys(before.mm);
                &&& after.cuts@ == trailing_cuts(images, tokens.len() as int)
                &&& after.history == before.history
                &&& after.blocks == before.blocks
                &&& after.mm == before.mm
                &&& after.prefill_end == before.prefill_end
                &&& after.cold_consulted == before.cold_consulted
                &&& after.reused == before.reused
                &&& match best_prefix(
                    old(self).checkpoints(),
                    tokens@,
                    images,
                    old(self).cache.len() as int,
                ) {
                    Some(i) => r == Some(i as usize) && i < old(self).cache.len(),
                    None => r is None,
                }
            }),
    {
        let cuts = self.cuts(slot, tokens.len());
        let ghost images = image_keys(self.slots[slot as int].mm);
        let ghost all = self.checkpoints();
        let mut best: Option<usize> = None;
        let mut n: usize = 0;
        while n < self.cache.len()
            invariant
                n <= self.cache.len(),
                *self == *old(self),
                self.wf(),
                slot < self.slots.len(),
                all == self.checkpoints(),
                images == image_keys(self.slots[slot as int].mm),
                match best {
                    Some(i) => best_prefix(all, tokens@, images, n as int) == Some(i as int) && i < n,
                    None => best_prefix(all, tokens@, images, n as int) is None,
                },
            decreases self.cache.len() - n,
        {
            assert(all[n as int] == self.cache[n as int]@);
            if self.serves_slot(n, slot, tokens) {
                match best {
                    None => {
                        best = Some(n);
                    },
                    Some(i) => {
                        assert(all[i as int] == self.cache[i as int]@);
                        if self.cache[i].history.len() <= self.cache[n].history.len() {
                            best = Some(n);
                        }
                    },
                }
            }
            n = n + 1;
        }
        assert(self.slots[slot as int].wf(&self.graph));
        self.slots[slot].cuts = cuts;
        best
    }
}

} // verus!
