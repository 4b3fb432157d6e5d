//! The colder tier of saved prefixes. A restore lands in a reserved entry and
//! private pages; it can serve a prompt only after its copy has been fenced.
use vstd::prelude::*;
use crate::error::{Fault, MetalError};
use crate::offload::{require_unchanged, FileVersion, Span};
use crate::qwen35::chain::{
    chain, image_boundaries, kept_lengths, kept_lengths_spare_images, linked, prefix_chain, Link,
};
use crate::qwen35::graph::MAX_PAGES;
use crate::qwen35::image::{
    all_wf, ended, ended_images, keys, prefix_images_match, prefix_matches, ImageKey, Key,
};
use crate::qwen35::plan::{taken_view, Plan, Taken};
use crate::qwen35::prepare::serves;
use crate::qwen35::spans::{checkpoint_bytes, checkpoint_spans};
use crate::qwen35::state::{
    choose_destination, destination, emptied, release, saved, victim, Checkpoint, Qwen35, Released,
    Saved, Slot,
};
use crate::tables::{first_tokens, has_start, starts_with};
use crate::tiering::{
    answer, election, find_hit, found, longest_hit, looked_up, no_decisions, observe, observed, resolved,
    undecided, Decisions, Loading, Observe,
};

verus! {

/// A prefix on its way into a reserved entry.
#[derive(Debug)]
pub struct Restoring {
    pub index: usize,
    pub blocks: Vec<u32>,
    pub history: Vec<u32>,
    pub images: Vec<ImageKey>,
    pub bytes: u64,
}

/// One copy lane: at most one restore is in flight.
#[derive(Debug)]
pub struct ColdTier {
    pub restoring: Option<Restoring>,
    /// The cost of recomputing has been measured.
    pub measured: bool,
    pub decisions: Decisions,
}

/// How a copy in flight stands.
#[derive(Clone, Copy, Debug, PartialEq, Eq, Structural)]
pub enum Flight {
    Running,
    /// Fenced. `parked` says that the prompt had waited for the disk.
    Done { parked: bool },
    Failed,
}

/// The first `n` prefixes of a plan that end at the last cut of their
/// sequence, by their entries.
pub open spec fn lasting(slots: Seq<Slot>, taken: Seq<Taken>, n: int) -> Seq<usize>
    decreases n,
{
    if n <= 0 {
        Seq::empty()
    } else {
        let before = lasting(slots, taken, n - 1);
        let t = taken[n - 1];
        let cuts = slots[t.slot as int].cuts@;
        if cuts.len() > 0 && cuts.last() == t.history.len() {
            before.push(t.index as usize)
        } else {
            before
        }
    }
}

/// A prefix that goes to the tier: its chain and its byte runs.
#[derive(Debug)]
pub struct Spill {
    pub links: Vec<Link>,
    pub spans: Vec<Span>,
    pub bytes: u64,
}

/// What reserving pages asks for next.
#[derive(Debug)]
pub enum Room {
    /// There are pages enough.
    Enough,
    /// Spill this prefix and free its pages.
    Evicted(Released),
    /// Nothing is left to evict.
    Full,
}

/// A prefix that serves a prompt without a restore, empty ones included.
pub open spec fn resident(c: Saved, tokens: Seq<u32>, images: Seq<Key>) -> bool {
    &&& !c.reserved
    &&& c.history.len() < tokens.len()
    &&& starts_with(tokens, c.history)
    &&& prefix_matches(c.images, images, c.history.len() as int)
}

/// The longest of them among the first `n` entries.
pub open spec fn resident_length(cache: Seq<Saved>, tokens: Seq<u32>, images: Seq<Key>, n: int) -> int
    decreases n,
{
    if n <= 0 {
        0
    } else {
        let before = resident_length(cache, tokens, images, n - 1);
        let c = cache[n - 1];
        if resident(c, tokens, images) && c.history.len() > before {
            c.history.len() as int
        } else {
            before
        }
    }
}

impl ColdTier {
    pub open spec fn wf(&self, m: &Qwen35) -> bool {
        self.restoring matches Some(r) ==> {
            &&& r.index < m.cache.len()
            &&& r.history.len() <= m.graph.context
            &&& all_wf(r.images@)
        }
    }

    /// A restore in flight that this prompt can wait for.
    pub open spec fn awaited(&self, tokens: Seq<u32>, images: Seq<Key>) -> bool {
        &&& self.restoring matches Some(r)
        &&& r.history.len() < tokens.len()
        &&& starts_with(tokens, r.history@)
        &&& prefix_matches(keys(r.images@), images, r.history.len() as int)
    }

    /// Bytes that the restore in flight will count as moved.
    pub open spec fn in_flight(&self) -> int {
        match self.restoring {
            Some(r) => r.bytes as int,
            None => 0,
        }
    }

    /// Decide on a hit, as `election` says.
    pub fn elect(&mut self, size: Option<(u64, bool)>, restore: bool, reading: bool, writes: bool) -> (r:
        Loading)
        requires
            old(self).decisions.room(0),
        ensures
            final(self).restoring == old(self).restoring,
            final(self).measured == old(self).measured,
            (final(self).decisions, r) == election(
                old(self).decisions,
                old(self).measured,
                size,
                restore,
                reading,
                writes,
            ),
    {
        self.decisions.elect(self.measured, size, restore, reading, writes)
    }

    /// A measured prompt: whether it seeds the cost model, or updates it.
    pub fn observe_cold_prefill(&mut self, n: u32, micros: u64) -> (r: Observe)
        ensures
            final(self).restoring == old(self).restoring,
            final(self).decisions == old(self).decisions,
            r == observed(old(self).measured, n, micros),
            final(self).measured == (old(self).measured || r == Observe::Seed),
    {
        observe(&mut self.measured, n, micros)
    }

    /// Restores in flight on top of what the tier's own cache reports.
    pub fn open_tickets(&self, cache: u64) -> (r: u64)
        requires
            cache < u64::MAX,
        ensures
            r == cache + if self.restoring is Some { 1int } else { 0 },
    {
        if self.restoring.is_some() {
            cache + 1
        } else {
            cache
        }
    }
}

impl Qwen35 {
    pub open spec fn used(&self) -> bool {
        exists|i: int| 0 <= i < self.slots.len() && (#[trigger] self.slots[i]).history.len() > 0
    }

    /// Whether any sequence has history.
    pub fn any_history(&self) -> (r: bool)
        ensures
            r == self.used(),
    {
        let mut i: usize = 0;
        while i < self.slots.len()
            invariant
                i <= self.slots.len(),
                forall|j: int| 0 <= j < i ==> (#[trigger] self.slots[j]).history.len() == 0,
            decreases self.slots.len() - i,
        {
            if self.slots[i].history.len() > 0 {
                return true;
            }
            i = i + 1;
        }
        false
    }

    /// Bytes that a budget must hold: three transfers of a three-page
    /// checkpoint, and some slack.
    pub open spec fn least_budget(&self) -> int {
        checkpoint_bytes(&self.graph, 3) * 3 + 131072
    }

    /// Open the tier, once, before inference. `before` and `after` are the
    /// sources around the computation of the namespace: neither may have
    /// changed since loading. The largest checkpoint is handed out too.
    pub fn enable_kv_offload(
        &self,
        enabled: bool,
        ram_bytes: u64,
        loaded: &Vec<FileVersion>,
        before: &Vec<FileVersion>,
        after: &Vec<FileVersion>,
    ) -> (r: Result<(ColdTier, u64), MetalError>)
        requires
            self.wf(),
        ensures
            if enabled || self.used() {
                r == Err::<(ColdTier, u64), MetalError>(MetalError::Model(Fault::Attached))
            } else if loaded@ != before@ || loaded@ != after@ {
                r == Err::<(ColdTier, u64), MetalError>(MetalError::Model(Fault::Changed))
            } else if ram_bytes < self.least_budget() {
                r == Err::<(ColdTier, u64), MetalError>(MetalError::Memory(Fault::Transfer))
            } else {
                &&& r matches Ok((t, largest))
                &&& largest == checkpoint_bytes(&self.graph, self.graph.page_stride as int)
                &&& t.restoring is None
                &&& !t.measured
                &&& t.decisions == undecided()
            },
    {
        if enabled || self.any_history() {
            return Err(MetalError::Model(Fault::Attached));
        }
        require_unchanged(loaded, before)?;
        require_unchanged(loaded, after)?;
        let least: u64 = self.graph.checkpoint_size(3) * 3 + 131072;
        if ram_bytes < least {
            return Err(MetalError::Memory(Fault::Transfer));
        }
        Ok(
            (
                ColdTier { restoring: None, measured: false, decisions: no_decisions() },
                self.graph.checkpoint_size(self.graph.page_stride),
            ),
        )
    }

    /// What goes to the tier of a saved prefix: nothing of one that is
    /// reserved or empty.
    pub open spec fn spilled(&self, index: int, c: Saved, r: Option<Spill>) -> bool {
        if c.reserved || c.history.len() == 0 {
            r is None
        } else {
            &&& r matches Some(s)
            &&& linked(s.links@) == chain(c.history, c.images, c.history.len() as int / 16)
            &&& s.spans@ == checkpoint_spans(&self.graph, self.slots.len() + index, c.blocks)
            &&& s.bytes == checkpoint_bytes(&self.graph, c.blocks.len() as int)
        }
    }

    fn spill(&self, index: usize, c: &Checkpoint) -> (r: Option<Spill>)
        requires
            self.wf(),
            index < self.cache.len(),
            c.blocks.len() <= MAX_PAGES,
        ensures
            self.spilled(index as int, c@, r),
    {
        if c.reserved || c.history.len() == 0 {
            return None;
        }
        let slot: usize = self.slots.len() + index;
        Some(
            Spill {
                links: prefix_chain(&c.history, &c.images),
                spans: self.graph.cold_spans(slot, &c.blocks),
                bytes: self.graph.checkpoint_size(c.blocks.len()),
            },
        )
    }

    /// Spill a prefix that has just been released.
    pub fn spill_checkpoint(&self, out: &Released) -> (r: Option<Spill>)
        requires
            self.wf(),
            out.index < self.cache.len(),
            out.saved.blocks.len() <= MAX_PAGES,
        ensures
            self.spilled(out.index as int, out.saved@, r),
    {
        self.spill(out.index, &out.saved)
    }

    /// Spill a prefix that stays resident.
    pub fn spill_resident(&self, index: usize) -> (r: Option<Spill>)
        requires
            self.wf(),
            index < self.cache.len(),
            self.cache[index as int].blocks.len() <= MAX_PAGES,
        ensures
            self.spilled(index as int, self.checkpoints()[index as int], r),
    {
        self.spill(index, &self.cache[index])
    }

    /// The entries of a finished plan that are kept in the tier without
    /// waiting for their eviction: those at the last boundary of their
    /// prompt. The boundary before it stays resident as a backup.
    pub fn lasting_entries(&self, plan: &Plan) -> (r: Vec<usize>)
        requires
            forall|i: int|
                0 <= i < plan.checkpoints.len() ==> (#[trigger] plan.checkpoints[i]).slot < self.slots.len(),
        ensures
            r@ == lasting(self.slots@, taken_view(plan.checkpoints@), plan.checkpoints.len() as int),
    {
        let ghost taken = taken_view(plan.checkpoints@);
        let mut out: Vec<usize> = Vec::new();
        let mut i: usize = 0;
        while i < plan.checkpoints.len()
            invariant
                i <= plan.checkpoints.len(),
                taken == taken_view(plan.checkpoints@),
                forall|j: int|
                    0 <= j < plan.checkpoints.len() ==> (#[trigger] plan.checkpoints[j]).slot
                        < self.slots.len(),
                out@ == lasting(self.slots@, taken, i as int),
            decreases plan.checkpoints.len() - i,
        {
            let c = &plan.checkpoints[i];
            let cuts = &self.slots[c.slot].cuts;
            assert(taken[i as int] == c@);
            if cuts.len() > 0 && cuts[cuts.len() - 1] == c.history.len() {
                out.push(c.index);
            }
            i = i + 1;
        }
        out
    }

    /// Length of the longest resident prefix of a prompt.
    pub fn longest_resident(&self, tokens: &Vec<u32>, images: &Vec<ImageKey>) -> (r: usize)
        requires
            self.wf(),
            all_wf(images@),
        ensures
            r == resident_length(self.checkpoints(), tokens@, keys(images@), self.cache.len() as int),
    {
        let mut best: usize = 0;
        let mut i: usize = 0;
        while i < self.cache.len()
            invariant
                i <= self.cache.len(),
                self.wf(),
                all_wf(images@),
                best == resident_length(self.checkpoints(), tokens@, keys(images@), i as int),
            decreases self.cache.len() - i,
        {
            let c = &self.cache[i];
            assert(self.checkpoints()[i as int] == c@);
            if !c.reserved && c.history.len() < tokens.len() && has_start(tokens, &c.history)
                && prefix_images_match(&c.images, images, c.history.len()) && c.history.len() > best {
                best = c.history.len();
            }
            i = i + 1;
        }
        best
    }

    /// Look a prompt up, after copies have been pumped. `kept` says of each
    /// boundary whether the tier holds it. A shorter kept prefix is never
    /// waited for where a longer one is resident.
    pub fn cold_loading(
        &self,
        tier: &mut ColdTier,
        tokens: &Vec<u32>,
        images: &Vec<ImageKey>,
        kept: &Vec<bool>,
    ) -> (r: Loading)
        requires
            self.wf(),
            old(tier).wf(self),
            old(tier).decisions.room(0),
            all_wf(images@),
            kept.len() == image_boundaries(
                tokens.len() as int,
                keys(images@),
                tokens.len() as int / 16,
            ).len(),
        ensures
            final(tier).restoring == old(tier).restoring,
            final(tier).measured == old(tier).measured,
            ({
                let d = old(tier).decisions;
                let bounds = image_boundaries(
                    tokens.len() as int,
                    keys(images@),
                    tokens.len() as int / 16,
                );
                let resident = resident_length(
                    self.checkpoints(),
                    tokens@,
                    keys(images@),
                    self.cache.len() as int,
                );
                let hit = longest_hit(bounds, kept@, resident, bounds.len() as int);
                if tokens.len() > self.graph.context {
                    r == Loading::Recompute && final(tier).decisions == d
                } else if old(tier).awaited(tokens@, keys(images@)) {
                    r == Loading::Wait && final(tier).decisions == d
                } else {
                    r == found(hit) && final(tier).decisions == looked_up(d, hit)
                }
            }),
    {
        if tokens.len() > self.graph.context {
            return Loading::Recompute;
        }
        let waits = match &tier.restoring {
            Some(r) => r.history.len() < tokens.len() && has_start(tokens, &r.history)
                && prefix_images_match(&r.images, images, r.history.len()),
            None => false,
        };
        if waits {
            return Loading::Wait;
        }
        let resident: usize = self.longest_resident(tokens, images);
        let bounds = kept_lengths(tokens, images);
        let hit = find_hit(&bounds, kept, resident);
        tier.decisions.look_up(hit)
    }

    /// After asking for the bytes, as `answer` says; while a verification
    /// pass awaits its verdict no copy is started.
    pub fn cold_read(&self, tier: &mut ColdTier, pending: bool, there: bool, reading: bool) -> (r: Loading)
        requires
            old(tier).decisions.room(0),
        ensures
            final(tier).restoring == old(tier).restoring,
            final(tier).measured == old(tier).measured,
            ({
                let (d, next) = answer(
                    old(tier).decisions,
                    pending,
                    there,
                    reading,
                    old(tier).restoring is Some,
                );
                &&& final(tier).decisions == d
                &&& r == if next == Loading::Place && self.uncommitted {
                    Loading::Recompute
                } else {
                    next
                }
            }),
    {
        let lane = tier.restoring.is_some();
        match tier.decisions.read(pending, there, reading, lane) {
            Loading::Place => if self.uncommitted {
                Loading::Recompute
            } else {
                Loading::Place
            },
            next => next,
        }
    }

    /// Empty an entry for a restore: the one that goes before all others. It
    /// is handed out, to be spilled and its pages freed.
    pub fn reserve_cold(&mut self) -> (r: Option<Released>)
        requires
            old(self).wf(),
        ensures
            final(self).wf(),
            final(self).graph == old(self).graph,
            final(self).slots == old(self).slots,
            final(self).clock == old(self).clock,
            final(self).pending == old(self).pending,
            final(self).uncommitted == old(self).uncommitted,
            match destination(old(self).checkpoints(), old(self).cache.len() as int) {
                None => r is None && final(self).cache == old(self).cache,
                Some(i) => {
                    &&& r matches Some(out)
                    &&& out.index == i
                    &&& out.saved@ == old(self).checkpoints()[i]
                    &&& final(self).checkpoints() == old(self).checkpoints().update(
                        i,
                        emptied(old(self).checkpoints()[i], false),
                    )
                },
            },
    {
        match choose_destination(&self.cache) {
            None => None,
            Some(i) => {
                assert(self.checkpoints()[i as int] == self.cache[i as int]@);
                let r = release(&mut self.cache, i, false);
                assert(self.cache[i as int].history@.len() == 0) by {
                    assert(self.checkpoints()[i as int] == self.cache[i as int]@);
                }
                Some(r)
            },
        }
    }

    /// Pages for `n` tokens: with `free` of them left, either there are
    /// enough, or the least recently touched prefix has to go.
    pub fn make_room(&mut self, free: usize, n: usize) -> (r: Room)
        requires
            old(self).wf(),
        ensures
            final(self).wf(),
            final(self).graph == old(self).graph,
            final(self).slots == old(self).slots,
            final(self).clock == old(self).clock,
            final(self).pending == old(self).pending,
            final(self).uncommitted == old(self).uncommitted,
            if free >= n as int / 16 {
                r is Enough && final(self).cache == old(self).cache
            } else {
                match victim(old(self).checkpoints(), old(self).cache.len() as int) {
                    None => r is Full && final(self).cache == old(self).cache,
                    Some(i) => {
                        &&& r matches Room::Evicted(out)
                        &&& out.index == i
                        &&& out.saved@ == old(self).checkpoints()[i]
                        &&& final(self).checkpoints() == old(self).checkpoints().update(
                            i,
                            emptied(old(self).checkpoints()[i], false),
                        )
                    },
                }
            },
    {
        if free >= n / 16 {
            return Room::Enough;
        }
        match self.evict_checkpoint() {
            Some(out) => Room::Evicted(out),
            None => Room::Full,
        }
    }

    /// The copy of the first `n` tokens into entry `index` has been asked
    /// for. Where it was taken, the entry is reserved until it is fenced;
    /// where it was refused, the pages come back.
    pub fn begin_restore(
        &mut self,
        tier: &mut ColdTier,
        index: usize,
        tokens: &Vec<u32>,
        n: usize,
        images: &Vec<ImageKey>,
        blocks: Vec<u32>,
        bytes: u64,
        taken: bool,
    ) -> (r: Result<(), Vec<u32>>)
        requires
            old(self).wf(),
            old(tier).wf(old(self)),
            old(tier).restoring is None,
            index < old(self).cache.len(),
            n <= tokens.len(),
            n <= old(self).graph.context,
            all_wf(images@),
        ensures
            final(self).wf(),
            final(tier).wf(final(self)),
            final(self).graph == old(self).graph,
            final(self).slots == old(self).slots,
            final(self).clock == old(self).clock,
            final(self).pending == old(self).pending,
            final(self).uncommitted == old(self).uncommitted,
            final(tier).measured == old(tier).measured,
            final(tier).decisions == old(tier).decisions,
            if taken {
                &&& r is Ok
                &&& final(self).checkpoints() == old(self).checkpoints().update(
                    index as int,
                    Saved { reserved: true, ..old(self).checkpoints()[index as int] },
                )
                &&& final(tier).restoring matches Some(x)
                &&& x.index == index
                &&& x.blocks == blocks
                &&& x.history@ == tokens@.take(n as int)
                &&& keys(x.images@) == ended(keys(images@), n as int)
                &&& x.bytes == bytes
            } else {
                &&& r == Err::<(), Vec<u32>>(blocks)
                &&& final(self).cache == old(self).cache
                &&& final(tier).restoring is None
            },
    {
        if !taken {
            return Err(blocks);
        }
        self.cache[index].reserved = true;
        proof {
            assert(old(self).checkpoints()[index as int] == old(self).cache[index as int]@);
            assert(self.checkpoints() =~= old(self).checkpoints().update(
                index as int,
                Saved { reserved: true, ..old(self).checkpoints()[index as int] },
            ));
        }
        tier.restoring = Some(
            Restoring {
                index,
                blocks,
                history: first_tokens(tokens, n),
                images: ended_images(images, n),
                bytes,
            },
        );
        Ok(())
    }

    /// Look after the copy in flight. A fenced one publishes its entry as the
    /// most recently touched; a failed one gives its pages back and is never
    /// published.
    pub fn pump_cold(&mut self, tier: &mut ColdTier, copy: Flight) -> (r: Option<Vec<u32>>)
        requires
            old(self).wf(),
            old(tier).wf(old(self)),
            old(self).clock < u64::MAX,
            old(tier).decisions.room(old(tier).in_flight()),
        ensures
            final(self).wf(),
            final(tier).wf(final(self)),
            final(self).graph == old(self).graph,
            final(self).slots == old(self).slots,
            final(self).pending == old(self).pending,
            final(self).uncommitted == old(self).uncommitted,
            final(tier).measured == old(tier).measured,
            match (old(tier).restoring, copy) {
                (None, _) => {
                    &&& r is None
                    &&& *final(self) == *old(self)
                    &&& final(tier).decisions == old(tier).decisions
                    &&& final(tier).restoring is None
                },
                (Some(_), Flight::Running) => {
                    &&& r is None
                    &&& *final(self) == *old(self)
                    &&& final(tier).decisions == old(tier).decisions
                    &&& final(tier).restoring == old(tier).restoring
                },
                (Some(x), Flight::Failed) => {
                    &&& r == Some(x.blocks)
                    &&& final(tier).restoring is None
                    &&& final(tier).decisions == old(tier).decisions
                    &&& final(self).clock == old(self).clock
                    &&& final(self).checkpoints() == old(self).checkpoints().update(
                        x.index as int,
                        Saved { reserved: false, ..old(self).checkpoints()[x.index as int] },
                    )
                },
                (Some(x), Flight::Done { parked }) => {
                    &&& r is None
                    &&& final(tier).restoring is None
                    &&& final(tier).decisions == resolved(old(tier).decisions, x.bytes, parked)
                    &&& final(self).clock == old(self).clock + 1
                    &&& final(self).checkpoints() == old(self).checkpoints().update(
                        x.index as int,
                        Saved {
                            reserved: false,
                            blocks: x.blocks@,
                            history: x.history@,
                            touched: (old(self).clock + 1) as u64,
                            images: keys(x.images@),
                        },
                    )
                },
            },
    {
        if copy == Flight::Running {
            return None;
        }
        let mut was: Option<Restoring> = None;
        std::mem::swap(&mut tier.restoring, &mut was);
        match was {
            None => None,
            Some(x) => {
                assert(old(self).checkpoints()[x.index as int] == old(self).cache[x.index as int]@);
                match copy {
                    Flight::Done { parked } => {
                        self.publish_restored(
                            x.index,
                            Checkpoint {
                                reserved: false,
                                blocks: x.blocks,
                                history: x.history,
                                touched: self.clock + 1,
                                images: x.images,
                            },
                        );
                        tier.decisions.resolve(x.bytes, parked);
                        None
                    },
                    _ => {
                        self.cache[x.index].reserved = false;
                        assert(self.checkpoints() =~= old(self).checkpoints().update(
                            x.index as int,
                            Saved { reserved: false, ..old(self).checkpoints()[x.index as int] },
                        ));
                        Some(x.blocks)
                    },
                }
            },
        }
    }

    fn publish_restored(&mut self, index: usize, entry: Checkpoint)
        requires
            old(self).wf(),
            index < old(self).cache.len(),
            old(self).clock < u64::MAX,
            entry.touched == old(self).clock + 1,
            entry.history.len() <= old(self).graph.context,
            all_wf(entry.images@),
        ensures
            final(self).wf(),
            final(self).graph == old(self).graph,
            final(self).slots == old(self).slots,
            final(self).pending == old(self).pending,
            final(self).uncommitted == old(self).uncommitted,
            final(self).clock == old(self).clock + 1,
            final(self).checkpoints() == old(self).checkpoints().update(index as int, entry@),
    {
        let ghost now = entry@;
        self.clock = self.clock + 1;
        self.cache[index] = entry;
        assert(self.checkpoints() =~= old(self).checkpoints().update(index as int, now));
    }

    /// A text prefix at least as long as `n` is there already.
    pub open spec fn text_resident(&self, tokens: Seq<u32>, n: int) -> bool {
        exists|i: int|
            {
                &&& 0 <= i < self.cache.len()
                &&& (#[trigger] self.checkpoints()[i]).images.len() == 0
                &&& n <= self.checkpoints()[i].history.len()
                &&& self.checkpoints()[i].history.len() < tokens.len()
                &&& starts_with(tokens, self.checkpoints()[i].history)
            }
    }

    /// What admission of a text prompt restores at once: the longest kept
    /// prefix, unless one at least as long is resident. `ready` says of each
    /// boundary whether its bytes can be had now.
    pub fn restore_cold(&self, tokens: &Vec<u32>, ready: &Vec<bool>) -> (r: Option<usize>)
        requires
            self.wf(),
            ready.len() == image_boundaries(
                tokens.len() as int,
                Seq::empty(),
                tokens.len() as int / 16,
            ).len(),
        ensures
            ({
                let bounds = image_boundaries(
                    tokens.len() as int,
                    Seq::empty(),
                    tokens.len() as int / 16,
                );
                match longest_hit(bounds, ready@, 0, bounds.len() as int) {
                    Some(n) => r == if self.text_resident(tokens@, n as int) {
                        None::<usize>
                    } else {
                        Some(n)
                    },
                    None => r is None,
                }
            }),
    {
        let none: Vec<ImageKey> = Vec::new();
        assert(keys(none@) =~= Seq::<Key>::empty());
        let bounds = kept_lengths(tokens, &none);
        match find_hit(&bounds, ready, 0) {
            None => None,
            Some(n) => {
                let mut i: usize = 0;
                while i < self.cache.len()
                    invariant
                        i <= self.cache.len(),
                        bounds@ == image_boundaries(
                            tokens.len() as int,
                            Seq::empty(),
                            tokens.len() as int / 16,
                        ),
                        longest_hit(bounds@, ready@, 0, bounds.len() as int) == Some(n),
                        forall|j: int|
                            0 <= j < i ==> {
                                let c = #[trigger] self.checkpoints()[j];
                                ||| c.images.len() != 0
                                ||| n > c.history.len()
                                ||| c.history.len() >= tokens.len()
                                ||| !starts_with(tokens@, c.history)
                            },
                    decreases self.cache.len() - i,
                {
                    let c = &self.cache[i];
                    proof {
                        assert(self.checkpoints()[i as int] == c@);
                        assert(keys(c.images@).len() == c.images.len());
                    }
                    if c.images.len() == 0 && c.history.len() >= n && c.history.len() < tokens.len()
                        && has_start(tokens, &c.history) {
                        return None;
                    }
                    i = i + 1;
                }
                Some(n)
            },
        }
    }

    /// The first `n` tokens of a text prompt have been restored into entry
    /// `index`: publish them.
    pub fn finish_restore(
        &mut self,
        tier: &mut ColdTier,
        index: usize,
        tokens: &Vec<u32>,
        n: usize,
        blocks: Vec<u32>,
        bytes: u64,
        parked: bool,
    )
        requires
            old(self).wf(),
            old(tier).wf(old(self)),
            index < old(self).cache.len(),
            n <= tokens.len(),
            n <= old(self).graph.context,
            old(self).clock < u64::MAX,
            old(tier).decisions.room(bytes as int),
        ensures
            final(self).wf(),
            final(tier).wf(final(self)),
            final(self).graph == old(self).graph,
            final(self).slots == old(self).slots,
            final(self).pending == old(self).pending,
            final(self).uncommitted == old(self).uncommitted,
            final(tier).measured == old(tier).measured,
            final(tier).restoring == old(tier).restoring,
            final(tier).decisions == resolved(old(tier).decisions, bytes, parked),
            final(self).clock == old(self).clock + 1,
            final(self).checkpoints() == old(self).checkpoints().update(
                index as int,
                Saved {
                    reserved: false,
                    blocks: blocks@,
                    history: tokens@.take(n as int),
                    touched: (old(self).clock + 1) as u64,
                    images: Seq::empty(),
                },
            ),
    {
        let entry = Checkpoint {
            reserved: false,
            blocks,
            history: first_tokens(tokens, n),
            touched: self.clock + 1,
            images: Vec::new(),
        };
        assert(entry@.images =~= Seq::<Key>::empty());
        self.publish_restored(index, entry);
        tier.decisions.resolve(bytes, parked);
    }
}

/// An entry that belongs to a plan or to a copy in flight serves nobody.
pub proof fn reserved_entries_serve_nobody(c: Saved, tokens: Seq<u32>, images: Seq<Key>)
    requires
        c.reserved,
    ensures
        !resident(c, tokens, images),
        !serves(c, tokens, images),
{
}

/// What a fenced restore publishes serves every prompt that waited for it.
pub proof fn fenced_restores_serve_the_waiting(
    t: ColdTier,
    c: Saved,
    tokens: Seq<u32>,
    images: Seq<Key>,
)
    requires
        t.awaited(tokens, images),
        !c.reserved,
        c.history == t.restoring->0.history@,
        c.images == keys(t.restoring->0.images@),
    ensures
        resident(c, tokens, images),
        c.history.len() > 0 ==> serves(c, tokens, images),
{
}

proof fn lemma_ended_again(images: Seq<Key>, cut: int)
    ensures
        ended(ended(images, cut), cut) == ended(images, cut),
        forall|i: int|
            0 <= i < ended(images, cut).len() ==> (#[trigger] ended(images, cut)[i]).end() <= cut,
    decreases images.len(),
{
    if images.len() > 0 {
        lemma_ended_again(images.drop_first(), cut);
        let rest = ended(images.drop_first(), cut);
        if images[0].end() <= cut {
            let all = seq![images[0]] + rest;
            assert(all[0] == images[0]);
            assert(all.drop_first() =~= rest);
        }
    }
}

/// A prefix restored at one of a prompt's kept lengths, with the images that
/// ended before it, is one that the prompt itself continues.
pub proof fn restored_prefixes_serve_their_prompt(
    c: Saved,
    tokens: Seq<u32>,
    images: Seq<Key>,
    i: int,
)
    requires
        tokens.len() <= usize::MAX,
        0 <= i < image_boundaries(tokens.len() as int, images, tokens.len() as int / 16).len(),
        ({
            let n = image_boundaries(tokens.len() as int, images, tokens.len() as int / 16)[i];
            &&& c.history == tokens.take(n as int)
            &&& c.images == ended(images, n as int)
        }),
        !c.reserved,
    ensures
        serves(c, tokens, images),
        resident(c, tokens, images),
{
    let n = image_boundaries(tokens.len() as int, images, tokens.len() as int / 16)[i] as int;
    kept_lengths_spare_images(tokens.len() as int, images, tokens.len() as int / 16, i);
    lemma_ended_again(images, n);
    assert(tokens.take(c.history.len() as int) =~= c.history);
}

} // verus!
