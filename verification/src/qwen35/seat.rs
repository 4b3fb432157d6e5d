//! Prompts that leave the tower: their encodings are attached, a saved prefix
//! is matched and they queue for the decoder.
use vstd::prelude::*;
use crate::error::{Fault, MetalError};
use crate::program::{Buffer, Program, Step};
use crate::qwen35::encode::{copy_step, lemma_front, lemma_same_slots};
use crate::qwen35::image::{all_wf, keys, prefix_images_match, prefix_matches, ImageKey, Key};
use crate::qwen35::layout::laid;
use crate::qwen35::multimodal::{comparable, comparable_images};
use crate::qwen35::prepare::{best_prefix, image_keys, trailing_cuts};
use crate::qwen35::state::{Layout, Pending, Qwen35, Saved, Slot};
use crate::qwen35::waves::{
    asked, find_image, first_known, known, waves, Asked, Encoding, Images, Outcome, Request, Wave,
};
use crate::tables::{copied_tokens, has_start, starts_with};

verus! {

/// What the stored form of a vision companion looks like.
#[derive(Clone, Copy, Debug, PartialEq, Eq, Structural)]
pub struct Companion {
    pub directory: bool,
    pub manifest: bool,
    pub rotation: bool,
}

/// A prompt on its seat: pages to free, the saved prefix to continue and its
/// length.
#[derive(Debug)]
pub struct Seated {
    pub slot: usize,
    pub freed: Vec<u32>,
    pub matched: Option<usize>,
    pub reused: usize,
}

/// Length of the saved prefix that a prompt continues.
pub open spec fn reused_of(cache: Seq<Saved>, best: Option<int>) -> int {
    match best {
        Some(i) => cache[i].history.len() as int,
        None => 0,
    }
}

/// The cache after a prompt continued one of its prefixes.
pub open spec fn touched_by(cache: Seq<Saved>, best: Option<int>, clock: u64) -> Seq<Saved> {
    match best {
        Some(i) => cache.update(i, Saved { touched: (clock + 1) as u64, ..cache[i] }),
        None => cache,
    }
}

impl Qwen35 {
    /// Every saved prefix has pages of one context at most.
    pub open spec fn paged(&self) -> bool {
        forall|i: int| 0 <= i < self.cache.len() ==> (#[trigger] self.cache[i]).blocks.len() <= self.graph.page_stride
    }

    /// The seat that a prompt gets.
    pub open spec fn seats(before: Qwen35, after: Qwen35, slot: usize, l: Layout, s: Seated) -> bool {
        let images = keys(l.keys@);
        let all = before.checkpoints();
        let best = best_prefix(all, l.ids@, images, before.cache.len() as int);
        let was = before.slots[slot as int];
        let now = after.slots[slot as int];
        let n = before.pending.len() as int;
        &&& s.slot == slot
        &&& s.freed@ == was.blocks@
        &&& s.matched == match best {
            Some(i) => Some(i as usize),
            None => None,
        }
        &&& s.reused == reused_of(all, best)
        &&& after.graph == before.graph
        &&& after.uncommitted == before.uncommitted
        &&& after.clock == before.clock + if best is Some { 1int } else { 0 }
        &&& after.checkpoints() == touched_by(all, best, before.clock)
        &&& after.slots.len() == before.slots.len()
        &&& forall|i: int| 0 <= i < before.slots.len() && i != slot ==> #[trigger] after.slots[i] == before.slots[i]
        &&& now.mm == Some(l)
        &&& now.prefill_end == l.ids.len()
        &&& !now.cold_consulted
        &&& now.reused == s.reused
        &&& now.cuts@ == trailing_cuts(images, l.ids.len() as int)
        &&& now.history@ == match best {
            Some(i) => all[i].history,
            None => Seq::empty(),
        }
        &&& now.blocks@ == match best {
            Some(i) => all[i].blocks,
            None => Seq::empty(),
        }
        &&& after.pending.len() == n + 1
        &&& after.pending@.take(n) == before.pending@
        &&& after.pending[n].slot == slot
        &&& after.pending[n].tokens@ == l.ids@
        &&& after.pending[n].offset == s.reused
        &&& after.pending[n].work == l.ids.len() - s.reused
    }

    /// Seat one laid-out prompt.
    pub fn seat_prompt(&mut self, slot: usize, l: Layout) -> (r: Result<Seated, MetalError>)
        requires
            old(self).wf(),
            old(self).paged(),
            old(self).clock < u64::MAX,
            l.wf(),
        ensures
            final(self).wf(),
            final(self).paged(),
            match old(self).prepare_fault(slot, l.ids@) {
                Some(f) => r == Err::<Seated, MetalError>(MetalError::Model(f)) && *final(self) == *old(self),
                None => r matches Ok(s) && Self::seats(*old(self), *final(self), slot, l, s),
            },
    {
        let tokens = copied_tokens(&l.ids);
        let ghost start = *self;
        let ghost images = keys(l.keys@);
        match self.prepare_mm(slot, &tokens, Some(l)) {
            Err(e) => Err(e),
            Ok(p) => {
                let ghost mid = *self;
                let matched = self.match_prefix(slot, &tokens);
                let ghost after = *self;
                proof {
                    assert(self.cache == start.cache);
                    crate::qwen35::prepare::best_prefix_is_longest(
                        start.checkpoints(),
                        tokens@,
                        images,
                        start.cache.len() as int,
                    );
                    if matched is Some {
                        assert(start.checkpoints()[matched->0 as int] == start.cache[matched->0 as int]@);
                    }
                }
                let reused: usize = self.adopt(slot, matched);
                let ghost held = self.pending@;
                let work: usize = tokens.len() - reused;
                proof {
                    assert(self.paged()) by {
                        assert forall|i: int| 0 <= i < self.cache.len() implies (#[trigger] self.cache[i]).blocks.len()
                            <= self.graph.page_stride by {
                            assert(self.checkpoints()[i] == self.cache[i]@);
                            assert(start.checkpoints()[i] == start.cache[i]@);
                            assert(start.cache[i].blocks.len() <= start.graph.page_stride);
                        }
                    }
                }
                self.pending.push(Pending { slot, tokens, offset: reused, work });
                proof {
                    assert(self.pending@.take(held.len() as int) =~= held);
                    assert(mid.slots[slot as int].history@ =~= Seq::<u32>::empty());
                    assert(mid.slots[slot as int].blocks@ =~= Seq::<u32>::empty());
                    assert(image_keys(mid.slots[slot as int].mm) == images);
                }
                Ok(Seated { slot, freed: p.freed, matched, reused })
            },
        }
    }
}

/// Copies of a prompt's encodings, in the order of its images.
pub open spec fn copied_images(
    unique: Seq<Key>,
    outputs: Seq<Option<Buffer>>,
    images: Seq<Key>,
    next: int,
    n: int,
) -> Seq<Buffer>
    decreases n,
{
    if n <= 0 {
        Seq::empty()
    } else {
        let from = outputs[first_known(unique, images[n - 1], 0)->0]->0;
        copied_images(unique, outputs, images, next, n - 1).push(
            Buffer { id: (next + n - 1) as u32, len: from.len },
        )
    }
}

pub open spec fn image_copies(
    p: Seq<Step>,
    unique: Seq<Key>,
    outputs: Seq<Option<Buffer>>,
    images: Seq<Key>,
    next: int,
    n: int,
) -> Seq<Step>
    decreases n,
{
    if n <= 0 {
        p
    } else {
        let from = outputs[first_known(unique, images[n - 1], 0)->0]->0;
        image_copies(p, unique, outputs, images, next, n - 1).push(
            copy_step(from, Buffer { id: (next + n - 1) as u32, len: from.len }),
        )
    }
}

/// All encodings are known.
pub open spec fn encoded(w: Wave) -> bool {
    &&& !w.job
    &&& w.missing.len() == 0
    &&& w.outputs.len() == w.unique.len()
}

fn copy_images(cmd: &mut Program, e: &Encoding, l: &mut Layout, next: u32, m: &Qwen35) -> (r: u32)
    requires
        e.wf(m),
        encoded(e@),
        old(l).wf(),
        old(l).images.len() == 0,
        next + old(l).keys.len() <= u32::MAX,
        forall|j: int| 0 <= j < old(l).keys.len() ==> known(keys(e.unique@), #[trigger] old(l).keys[j]@),
    ensures
        r == next + old(l).keys.len(),
        final(l).wf(),
        laid(*final(l)) == laid(*old(l)),
        final(l).ids == old(l).ids,
        final(l).keys == old(l).keys,
        final(l).images@ == copied_images(
            keys(e.unique@),
            e.outputs@,
            keys(old(l).keys@),
            next as int,
            old(l).keys.len() as int,
        ),
        final(cmd)@ == image_copies(
            old(cmd)@,
            keys(e.unique@),
            e.outputs@,
            keys(old(l).keys@),
            next as int,
            old(l).keys.len() as int,
        ),
{
    let ghost u = keys(e.unique@);
    let ghost all = keys(l.keys@);
    let ghost l0 = *l;
    let ghost p = cmd@;
    let mut i: usize = 0;
    assert(l.images@ =~= Seq::<Buffer>::empty());
    while i < l.keys.len()
        invariant
            i <= l.keys.len(),
            e.wf(m),
            encoded(e@),
            l0.wf(),
            l.ids == l0.ids,
            l.keys == l0.keys,
            l.positions == l0.positions,
            l.limits == l0.limits,
            l.final_position == l0.final_position,
            l.images.len() == i,
            u == keys(e.unique@),
            all == keys(l0.keys@),
            next + l0.keys.len() <= u32::MAX,
            forall|j: int| 0 <= j < l0.keys.len() ==> known(u, #[trigger] l0.keys[j]@),
            l.images@ == copied_images(u, e.outputs@, all, next as int, i as int),
            cmd@ == image_copies(p, u, e.outputs@, all, next as int, i as int),
        decreases l.keys.len() - i,
    {
        proof {
            assert(all[i as int] == l.keys[i as int]@);
            assert(known(u, l0.keys[i as int]@));
        }
        if let Some(at) = find_image(&e.unique, &l.keys[i]) {
            assert(e.outputs[at as int] is Some) by {
                if e.outputs[at as int] is None {
                    assert(e.missing@.contains(at) || e.in_flight@.contains(at));
                }
            }
            if let Some(from) = e.outputs[at] {
                let to = crate::qwen35::encode::copy_image(cmd, from, next + i as u32);
                l.images.push(to);
            }
        }
        i = i + 1;
    }
    next + l.keys.len() as u32
}

/// Prompts with their encodings attached, one after another.
pub open spec fn dressed(w: Wave, next: int, n: int) -> (Seq<Asked>, int)
    decreases n,
{
    if n <= 0 {
        (Seq::empty(), next)
    } else {
        let (before, at) = dressed(w, next, n - 1);
        let r = w.requests[n - 1];
        (
            before.push(
                Asked {
                    images: copied_images(w.unique, w.outputs, r.laid.keys, at, r.laid.keys.len() as int),
                    ..r
                },
            ),
            at + r.laid.keys.len(),
        )
    }
}

pub open spec fn dressing(p: Seq<Step>, w: Wave, next: int, n: int) -> Seq<Step>
    decreases n,
{
    if n <= 0 {
        p
    } else {
        let r = w.requests[n - 1];
        image_copies(
            dressing(p, w, next, n - 1),
            w.unique,
            w.outputs,
            r.laid.keys,
            dressed(w, next, n - 1).1,
            r.laid.keys.len() as int,
        )
    }
}

/// Images of the first `n` prompts of a wave.
pub open spec fn image_total(w: Wave, n: int) -> int
    decreases n,
{
    if n <= 0 {
        0
    } else {
        image_total(w, n - 1) + w.requests[n - 1].laid.keys.len()
    }
}

proof fn lemma_dressed(w: Wave, next: int, n: int)
    requires
        0 <= n,
    ensures
        dressed(w, next, n).1 == next + image_total(w, n),
        dressed(w, next, n).0.len() == n,
    decreases n,
{
    if n > 0 {
        lemma_dressed(w, next, n - 1);
    }
}

proof fn lemma_total(w: Wave, a: int, b: int)
    requires
        0 <= a <= b,
    ensures
        0 <= image_total(w, a) <= image_total(w, b),
    decreases b,
{
    if a < b {
        lemma_total(w, a, b - 1);
    } else if a > 0 {
        lemma_total(w, a - 1, a - 1);
    }
}

/// No prompt of the wave has encodings yet.
pub open spec fn undressed(w: Wave) -> bool {
    forall|i: int| 0 <= i < w.requests.len() ==> (#[trigger] w.requests[i]).images.len() == 0
}

impl Images {
    /// Attach the encodings of the first wave to its prompts.
    pub fn attach_encodings(&mut self, m: &Qwen35, cmd: &mut Program, next: u32) -> (r: u32)
        requires
            old(self).wf(m),
            old(self).encoding.len() > 0,
            encoded(old(self).encoding[0]@),
            undressed(old(self).encoding[0]@),
            next + image_total(old(self).encoding[0]@, old(self).encoding[0].requests.len() as int) <= u32::MAX,
        ensures
            final(self).wf(m),
            final(self).attached == old(self).attached,
            final(self).cache == old(self).cache,
            final(self).reused == old(self).reused,
            ({
                let w = old(self).encoding[0]@;
                let n = w.requests.len() as int;
                &&& r == next + image_total(w, n)
                &&& final(cmd)@ == dressing(old(cmd)@, w, next as int, n)
                &&& Self::first_becomes(
                    *old(self),
                    *final(self),
                    Wave { requests: dressed(w, next as int, n).0, ..w },
                )
            }),
    {
        let ghost before = *self;
        let ghost p = cmd@;
        assert(self.encoding[0].wf(m));
        let mut e = self.encoding.remove(0);
        let ghost rest = self.encoding@;
        let ghost e0 = e;
        let ghost w = e@;
        let ghost total = w.requests.len() as int;
        let mut todo: Vec<Request> = Vec::new();
        std::mem::swap(&mut e.requests, &mut todo);
        let ghost all = todo@;
        let count: usize = todo.len();
        let ghost e1 = e;
        let mut id: u32 = next;
        let mut n: usize = 0;
        assert(all.skip(0) =~= all);
        assert(e1.wf(m));
        assert(asked(e.requests@) =~= Seq::<Asked>::empty());
        while todo.len() > 0
            invariant
                n + todo.len() == total == all.len(),
                total == count,
                todo@ == all.skip(n as int),
                all == e0.requests@,
                e0.wf(m),
                w == e0@,
                encoded(w),
                undressed(w),
                e.unique == e0.unique,
                e.outputs == e0.outputs,
                e.missing == e0.missing,
                e.in_flight == e0.in_flight,
                e.job == e0.job,
                e.requests.len() == n,
                e.wf(m),
                id == next + image_total(w, n as int),
                next + image_total(w, total) <= u32::MAX,
                asked(e.requests@) == dressed(w, next as int, n as int).0,
                cmd@ == dressing(p, w, next as int, n as int),
            decreases todo.len(),
        {
            let Request { slot, layout } = todo.remove(0);
            let mut l = layout;
            proof {
                assert((Request { slot, layout: l }) == all[n as int]);
                assert(todo@ =~= all.skip(n + 1));
                assert(w.requests[n as int] == all[n as int]@);
                assert(all[n as int].wf(m));
                lemma_dressed(w, next as int, n as int);
                lemma_total(w, n + 1, total);
                assert(w.requests[n as int].images.len() == 0);
                assert(keys(l.keys@).len() == l.keys.len());
                assert forall|j: int| 0 <= j < l.keys.len() implies known(
                    keys(e.unique@),
                    #[trigger] l.keys[j]@,
                ) by {
                    assert(all[n as int].layout.keys[j] == l.keys[j]);
                }
            }
            let ghost held = e;
            let ghost view = Asked {
                images: copied_images(w.unique, w.outputs, laid(l).keys, id as int, l.keys.len() as int),
                ..all[n as int]@
            };
            let ghost l0 = l;
            id = copy_images(cmd, &e, &mut l, id, m);
            let ghost r = Request { slot, layout: l };
            assert(r@ == view);
            e.requests.push(Request { slot, layout: l });
            proof {
                assert(asked(e.requests@) =~= asked(held.requests@).push(view));
                assert(e.wf(m)) by {
                    assert forall|i: int| 0 <= i < e.requests.len() implies (#[trigger] e.requests[i]).wf(m) by {
                        if i < n {
                            assert(e.requests[i] == held.requests[i]);
                        }
                    }
                    assert forall|i: int, j: int|
                        0 <= i < e.requests.len() && 0 <= j < e.requests[i].layout.keys.len() implies known(
                        keys(e.unique@),
                        #[trigger] e.requests[i].layout.keys[j]@,
                    ) by {
                        if i < n {
                            assert(e.requests[i] == held.requests[i]);
                        } else {
                            assert(e.requests[i].layout.keys[j] == l0.keys[j]);
                            assert(all[n as int].layout.keys[j] == l0.keys[j]);
                        }
                    }
                }
            }
            n = n + 1;
        }
        let ghost v = e@;
        self.encoding.insert(0, e);
        proof {
            lemma_front(before.encoding@, self.encoding@, rest, v, m);
        }
        id
    }

    /// The first wave failed: all of its prompts are told so.
    pub fn fail_wave(&mut self, m: &Qwen35, error: MetalError) -> (r: Vec<(usize, Outcome)>)
        requires
            old(self).wf(m),
            old(self).encoding.len() > 0,
        ensures
            final(self).wf(m),
            final(self).attached == old(self).attached,
            final(self).cache == old(self).cache,
            final(self).reused == old(self).reused,
            waves(final(self).encoding@) == waves(old(self).encoding@).skip(1),
            r@ == old(self).encoding[0]@.requests.map_values(
                |q: Asked| (q.slot, Outcome::Failed(error)),
            ),
    {
        let ghost before = self.encoding@;
        let e = self.encoding.remove(0);
        let mut out: Vec<(usize, Outcome)> = Vec::new();
        let ghost want = e@.requests.map_values(|q: Asked| (q.slot, Outcome::Failed(error)));
        let mut i: usize = 0;
        while i < e.requests.len()
            invariant
                i <= e.requests.len(),
                want == e@.requests.map_values(|q: Asked| (q.slot, Outcome::Failed(error))),
                out@ == want.take(i as int),
            decreases e.requests.len() - i,
        {
            assert(e@.requests[i as int] == e.requests[i as int]@);
            out.push((e.requests[i].slot, Outcome::Failed(error)));
            assert(out@ =~= want.take(i + 1));
            i = i + 1;
        }
        proof {
            assert(out@ =~= want);
            assert(waves(self.encoding@) =~= waves(before).skip(1));
            assert forall|j: int| 0 <= j < self.encoding.len() implies (#[trigger] self.encoding[j]).wf(m) by {
                assert(self.encoding[j] == before[j + 1]);
            }
        }
        out
    }
}

/// A wave without its request `i`.
pub open spec fn relieved(w: Wave, i: int) -> Wave {
    Wave { requests: w.requests.remove(i), ..w }
}

/// A saved prefix covers a prompt whose images have all ended in it.
pub open spec fn covers_prompt(c: Saved, ids: Seq<u32>, images: Seq<Key>) -> bool {
    &&& !c.reserved
    &&& c.history.len() < ids.len()
    &&& starts_with(ids, c.history)
    &&& forall|i: int| 0 <= i < images.len() ==> (#[trigger] images[i]).end() <= c.history.len()
    &&& prefix_matches(c.images, images, c.history.len() as int)
}

pub open spec fn any_covers(cache: Seq<Saved>, ids: Seq<u32>, images: Seq<Key>) -> bool {
    exists|i: int| 0 <= i < cache.len() && covers_prompt(#[trigger] cache[i], ids, images)
}

fn all_ended(images: &Vec<ImageKey>, n: usize) -> (r: bool)
    requires
        all_wf(images@),
    ensures
        r == (forall|i: int| 0 <= i < images.len() ==> (#[trigger] keys(images@)[i]).end() <= n),
{
    let mut i: usize = 0;
    while i < images.len()
        invariant
            i <= images.len(),
            all_wf(images@),
            forall|j: int| 0 <= j < i ==> (#[trigger] keys(images@)[j]).end() <= n,
        decreases images.len() - i,
    {
        assert(keys(images@)[i as int] == images[i as int]@);
        if images[i].end() > n {
            return false;
        }
        i = i + 1;
    }
    true
}

/// The result of seating one prompt of a wave.
#[derive(Debug)]
pub struct Verdict {
    pub slot: usize,
    pub outcome: Outcome,
    pub seated: Option<Seated>,
}

/// What a prompt is told, and how the model changes.
pub open spec fn verdict_of(before: Qwen35, after: Qwen35, slot: usize, l: Layout, v: Verdict) -> bool {
    &&& v.slot == slot
    &&& match before.prepare_fault(slot, l.ids@) {
        Some(f) => {
            &&& v.outcome == Outcome::Failed(MetalError::Model(f))
            &&& v.seated is None
            &&& after == before
        },
        None => {
            &&& v.outcome == Outcome::Queued
            &&& v.seated matches Some(s) && Qwen35::seats(before, after, slot, l, s)
        },
    }
}

impl Qwen35 {
    fn is_covered(&self, l: &Layout) -> (r: bool)
        requires
            self.wf(),
            l.wf(),
        ensures
            r == any_covers(self.checkpoints(), l.ids@, keys(l.keys@)),
    {
        let mut i: usize = 0;
        while i < self.cache.len()
            invariant
                i <= self.cache.len(),
                self.wf(),
                l.wf(),
                forall|j: int|
                    0 <= j < i ==> !covers_prompt(#[trigger] self.checkpoints()[j], l.ids@, keys(l.keys@)),
            decreases self.cache.len() - i,
        {
            let c = &self.cache[i];
            proof {
                assert(self.checkpoints()[i as int] == c@);
                assert(keys(l.keys@).len() == l.keys.len());
            }
            if !c.reserved && c.history.len() < l.ids.len() && has_start(&l.ids, &c.history) && all_ended(
                &l.keys,
                c.history.len(),
            ) && prefix_images_match(&c.images, &l.keys, c.history.len()) {
                return true;
            }
            i = i + 1;
        }
        false
    }

    /// Seat request `i` of the first wave, or its refusal.
    fn seat_at(&mut self, images: &mut Images, i: usize) -> (r: Verdict)
        requires
            old(self).wf(),
            old(self).paged(),
            old(self).clock < u64::MAX,
            old(images).wf(old(self)),
            old(images).encoding.len() > 0,
            i < old(images).encoding[0].requests.len(),
        ensures
            final(self).wf(),
            final(self).paged(),
            final(images).wf(final(self)),
            final(images).attached == old(images).attached,
            final(images).cache == old(images).cache,
            final(images).reused == old(images).reused,
            Images::first_becomes(
                *old(images),
                *final(images),
                relieved(old(images).encoding[0]@, i as int),
            ),
            ({
                let q = old(images).encoding[0].requests[i as int];
                verdict_of(*old(self), *final(self), q.slot, q.layout, r)
            }),
    {
        let ghost before = *images;
        let ghost m = *self;
        assert(images.encoding[0].wf(self));
        let mut e = images.encoding.remove(0);
        let ghost rest = images.encoding@;
        let ghost e0 = e;
        assert(e0.requests[i as int].wf(self));
        let Request { slot, layout } = e.requests.remove(i);
        let ghost v = e@;
        proof {
            assert(v.requests =~= e0@.requests.remove(i as int));
            assert(v == relieved(e0@, i as int));
        }
        let ghost l = layout;
        let r = match self.seat_prompt(slot, layout) {
            Ok(s) => Verdict { slot, outcome: Outcome::Queued, seated: Some(s) },
            Err(x) => Verdict { slot, outcome: Outcome::Failed(x), seated: None },
        };
        proof {
            assert(e.wf(self)) by {
                assert forall|j: int| 0 <= j < e.requests.len() implies (#[trigger] e.requests[j]).wf(self) by {
                    if j < i {
                        assert(e.requests[j] == e0.requests[j]);
                    } else {
                        assert(e.requests[j] == e0.requests[j + 1]);
                    }
                }
                assert forall|a: int, b: int|
                    0 <= a < e.requests.len() && 0 <= b < e.requests[a].layout.keys.len() implies known(
                    keys(e.unique@),
                    #[trigger] e.requests[a].layout.keys[b]@,
                ) by {
                    if a < i {
                        assert(e.requests[a] == e0.requests[a]);
                    } else {
                        assert(e.requests[a] == e0.requests[a + 1]);
                    }
                }
            }
        }
        images.encoding.insert(0, e);
        proof {
            assert forall|j: int| 0 <= j < before.encoding.len() implies (#[trigger] before.encoding[j]).wf(self) by {
                lemma_same_slots(before.encoding[j], &m, self);
            }
            lemma_front(before.encoding@, images.encoding@, rest, v, self);
        }
        r
    }

    /// Seat the next prompt of the first wave; a wave without prompts is
    /// done.
    pub fn seat_next(&mut self, images: &mut Images) -> (r: Option<Verdict>)
        requires
            old(self).wf(),
            old(self).paged(),
            old(self).clock < u64::MAX,
            old(images).wf(old(self)),
            old(images).encoding.len() > 0,
        ensures
            final(self).wf(),
            final(self).paged(),
            final(images).wf(final(self)),
            final(images).attached == old(images).attached,
            final(images).cache == old(images).cache,
            final(images).reused == old(images).reused,
            if old(images).encoding[0].requests.len() == 0 {
                &&& r is None
                &&& *final(self) == *old(self)
                &&& waves(final(images).encoding@) == waves(old(images).encoding@).skip(1)
            } else {
                let q = old(images).encoding[0].requests[0];
                &&& r matches Some(v)
                &&& verdict_of(*old(self), *final(self), q.slot, q.layout, v)
                &&& Images::first_becomes(
                    *old(images),
                    *final(images),
                    relieved(old(images).encoding[0]@, 0),
                )
            },
    {
        if images.encoding[0].requests.len() == 0 {
            let ghost before = images.encoding@;
            let _ = images.encoding.remove(0);
            proof {
                assert(waves(images.encoding@) =~= waves(before).skip(1));
                assert forall|j: int| 0 <= j < images.encoding.len() implies (
                #[trigger] images.encoding[j]).wf(self) by {
                    assert(images.encoding[j] == before[j + 1]);
                }
            }
            return None;
        }
        Some(self.seat_at(images, 0))
    }

    /// Seat request `i` of the first wave without the tower, where a saved
    /// prefix covers all of its images.
    pub fn seat_covered(&mut self, images: &mut Images, i: usize) -> (r: Option<Verdict>)
        requires
            old(self).wf(),
            old(self).paged(),
            old(self).clock < u64::MAX,
            old(images).wf(old(self)),
            old(images).encoding.len() > 0,
            i < old(images).encoding[0].requests.len(),
        ensures
            final(self).wf(),
            final(self).paged(),
            final(images).wf(final(self)),
            final(images).attached == old(images).attached,
            final(images).cache == old(images).cache,
            final(images).reused == old(images).reused,
            ({
                let q = old(images).encoding[0].requests[i as int];
                if any_covers(old(self).checkpoints(), q.layout.ids@, keys(q.layout.keys@)) {
                    &&& r matches Some(v)
                    &&& verdict_of(*old(self), *final(self), q.slot, q.layout, v)
                    &&& Images::first_becomes(
                        *old(images),
                        *final(images),
                        relieved(old(images).encoding[0]@, i as int),
                    )
                } else {
                    &&& r is None
                    &&& *final(self) == *old(self)
                    &&& *final(images) == *old(images)
                }
            }),
    {
        proof {
            assert(images.encoding[0].wf(self));
            assert(images.encoding[0].requests[i as int].wf(self));
        }
        if self.is_covered(&images.encoding[0].requests[i].layout) {
            Some(self.seat_at(images, i))
        } else {
            None
        }
    }

    /// The tier has been asked for the prompts of the first wave.
    pub fn mark_consulted(&mut self, images: &Images)
        requires
            old(self).wf(),
            images.wf(old(self)),
            images.encoding.len() > 0,
        ensures
            final(self).wf(),
            final(self).graph == old(self).graph,
            final(self).cache == old(self).cache,
            final(self).clock == old(self).clock,
            final(self).pending == old(self).pending,
            final(self).uncommitted == old(self).uncommitted,
            final(self).slots.len() == old(self).slots.len(),
            forall|s: int|
                0 <= s < old(self).slots.len() ==> #[trigger] final(self).slots[s] == (Slot {
                    cold_consulted: old(self).slots[s].cold_consulted || exists|i: int|
                        0 <= i < images.encoding[0].requests.len() && (
                        #[trigger] images.encoding[0].requests[i]).slot == s,
                    ..old(self).slots[s]
                }),
    {
        let e = &images.encoding[0];
        assert(e.wf(self));
        let ghost m = *self;
        let mut n: usize = 0;
        while n < e.requests.len()
            invariant
                n <= e.requests.len(),
                e.wf(&m),
                m == *old(self),
                self.wf(),
                self.graph == m.graph,
                self.cache == m.cache,
                self.clock == m.clock,
                self.pending == m.pending,
                self.uncommitted == m.uncommitted,
                self.slots.len() == m.slots.len(),
                forall|s: int|
                    0 <= s < m.slots.len() ==> #[trigger] self.slots[s] == (Slot {
                        cold_consulted: m.slots[s].cold_consulted || exists|i: int|
                            0 <= i < n && (#[trigger] e.requests[i]).slot == s,
                        ..m.slots[s]
                    }),
            decreases e.requests.len() - n,
        {
            let slot: usize = e.requests[n].slot;
            assert(e.requests[n as int].wf(&m));
            let ghost before = self.slots@;
            assert(before[slot as int].wf(&self.graph));
            self.slots[slot].cold_consulted = true;
            proof {
                assert forall|s: int| 0 <= s < m.slots.len() implies #[trigger] self.slots[s] == (Slot {
                    cold_consulted: m.slots[s].cold_consulted || exists|i: int|
                        0 <= i < n + 1 && (#[trigger] e.requests[i]).slot == s,
                    ..m.slots[s]
                }) by {
                    assert(before[s] == (Slot {
                        cold_consulted: m.slots[s].cold_consulted || exists|i: int|
                            0 <= i < n && (#[trigger] e.requests[i]).slot == s,
                        ..m.slots[s]
                    }));
                    if s == slot {
                        assert(e.requests[n as int].slot == s);
                    } else {
                        assert(self.slots[s] == before[s]);
                    }
                }
            }
            n = n + 1;
        }
    }

    /// Attach a vision tower, once, before any prompt. Only a packed or
    /// native ternary decoder takes a companion of its own kind from a
    /// directory.
    pub fn attach_vision(&self, images: &mut Images, companion: Companion, cold: bool) -> (r: Result<
        (),
        MetalError,
    >)
        requires
            self.wf(),
        ensures
            ({
                let g = self.graph;
                let c = companion;
                let f = if (g.ternary && c.directory) || (g.mlx && !(g.splash && c.manifest) && !(g.bonsai is Some
                    && c.rotation)) {
                    Some(Fault::Companion)
                } else if self.uncommitted {
                    Some(Fault::Uncommitted)
                } else if old(images).attached || cold || self.used() || old(images).encoding.len() > 0 {
                    Some(Fault::Attached)
                } else {
                    None
                };
                match f {
                    Some(f) => r == Err::<(), MetalError>(MetalError::Model(f)) && *final(images) == *old(images),
                    None => r is Ok && *final(images) == (Images { attached: true, ..*old(images) }),
                }
            }),
    {
        let g = &self.graph;
        if g.ternary && companion.directory {
            return Err(MetalError::Model(Fault::Companion));
        }
        if g.mlx && !(g.splash && companion.manifest) && !(g.bonsai.is_some() && companion.rotation) {
            return Err(MetalError::Model(Fault::Companion));
        }
        if self.uncommitted {
            return Err(MetalError::Model(Fault::Uncommitted));
        }
        if images.attached || cold || self.any_history() || images.encoding.len() > 0 {
            return Err(MetalError::Model(Fault::Attached));
        }
        images.attached = true;
        Ok(())
    }

    /// Sizes of all image work: prompts in progress, then prompts in the
    /// tower's queue.
    pub open spec fn image_sizes(&self, queue: Seq<Wave>) -> Seq<usize> {
        self.pending@.map_values(|p: Pending| p.work) + wave_sizes(queue, queue.len() as int)
    }

    /// Every prompt in progress is image work from its very start.
    pub open spec fn cold_images(&self) -> bool {
        forall|i: int|
            0 <= i < self.pending.len() ==> self.slots[(#[trigger] self.pending[i]).slot as int].mm is Some
                && self.pending[i].work == self.pending[i].tokens.len()
    }

    /// Whether the tower may go before the prompts in progress: a resumed
    /// prefix or a short text never waits behind large images.
    pub fn cold_image_cohort_encoding(&self, images: &Images) -> (r: bool)
        requires
            self.wf(),
            forall|i: int| 0 <= i < self.pending.len() ==> (#[trigger] self.pending[i]).slot < self.slots.len(),
        ensures
            r == (self.pending.len() > 0 && images.encoding.len() > 0 && self.cold_images() && comparable(
                self.image_sizes(waves(images.encoding@)),
            )),
    {
        if self.pending.len() == 0 || images.encoding.len() == 0 {
            return false;
        }
        let mut sizes: Vec<usize> = Vec::new();
        let ghost works = self.pending@.map_values(|p: Pending| p.work);
        let mut i: usize = 0;
        while i < self.pending.len()
            invariant
                i <= self.pending.len(),
                forall|i: int|
                    0 <= i < self.pending.len() ==> (#[trigger] self.pending[i]).slot < self.slots.len(),
                works == self.pending@.map_values(|p: Pending| p.work),
                sizes@ == works.take(i as int),
                forall|j: int|
                    0 <= j < i ==> self.slots[(#[trigger] self.pending[j]).slot as int].mm is Some
                        && self.pending[j].work == self.pending[j].tokens.len(),
            decreases self.pending.len() - i,
        {
            let p = &self.pending[i];
            if self.slots[p.slot].mm.is_none() || p.work != p.tokens.len() {
                assert(!self.cold_images());
                return false;
            }
            sizes.push(p.work);
            assert(sizes@ =~= works.take(i + 1));
            i = i + 1;
        }
        assert(sizes@ =~= works);
        let ghost queue = waves(images.encoding@);
        let mut k: usize = 0;
        assert(sizes@ =~= works + wave_sizes(queue, 0));
        while k < images.encoding.len()
            invariant
                k <= images.encoding.len(),
                queue == waves(images.encoding@),
                sizes@ == works + wave_sizes(queue, k as int),
            decreases images.encoding.len() - k,
        {
            let e = &images.encoding[k];
            assert(queue[k as int] == e@);
            let ghost held = sizes@;
            let mut j: usize = 0;
            assert(sizes@ =~= held + request_sizes(e@, 0));
            while j < e.requests.len()
                invariant
                    j <= e.requests.len(),
                    sizes@ == held + request_sizes(e@, j as int),
                decreases e.requests.len() - j,
            {
                assert(e@.requests[j as int] == e.requests[j as int]@);
                sizes.push(e.requests[j].layout.ids.len());
                j = j + 1;
                assert(sizes@ =~= held + request_sizes(e@, j as int));
            }
            k = k + 1;
            assert(sizes@ =~= works + wave_sizes(queue, k as int));
        }
        comparable_images(sizes.as_slice())
    }
}

/// Rows of the first `n` prompts of a wave.
pub open spec fn request_sizes(w: Wave, n: int) -> Seq<usize>
    decreases n,
{
    if n <= 0 {
        Seq::empty()
    } else {
        request_sizes(w, n - 1).push(w.requests[n - 1].laid.ids.len() as usize)
    }
}

/// Rows of the prompts of the first `n` waves.
pub open spec fn wave_sizes(queue: Seq<Wave>, n: int) -> Seq<usize>
    decreases n,
{
    if n <= 0 {
        Seq::empty()
    } else {
        wave_sizes(queue, n - 1) + request_sizes(queue[n - 1], queue[n - 1].requests.len() as int)
    }
}

impl Images {
    /// Images of the first wave that none of its prompts shows are dropped;
    /// a wave without prompts goes with them. For use before the image cache
    /// has been asked.
    pub fn retain_images(&mut self, m: &Qwen35)
        requires
            old(self).wf(m),
            old(self).encoding.len() > 0,
            old(self).encoding[0].outputs.len() == 0,
        ensures
            final(self).wf(m),
            final(self).attached == old(self).attached,
            final(self).cache == old(self).cache,
            final(self).reused == old(self).reused,
            ({
                let w = old(self).encoding[0]@;
                if w.requests.len() == 0 {
                    waves(final(self).encoding@) == waves(old(self).encoding@).skip(1)
                } else {
                    Self::first_becomes(
                        *old(self),
                        *final(self),
                        Wave { unique: shown(w, w.unique.len() as int), ..w },
                    )
                }
            }),
    {
        let ghost before = *self;
        assert(self.encoding[0].wf(m));
        let mut e = self.encoding.remove(0);
        let ghost rest = self.encoding@;
        let ghost e0 = e;
        let ghost w = e@;
        if e.requests.len() == 0 {
            proof {
                assert(waves(self.encoding@) =~= waves(before.encoding@).skip(1));
                assert forall|j: int| 0 <= j < self.encoding.len() implies (#[trigger] self.encoding[j]).wf(m) by {
                    assert(self.encoding[j] == before.encoding[j + 1]);
                }
            }
            return;
        }
        let mut left: Vec<ImageKey> = Vec::new();
        let mut i: usize = 0;
        assert(keys(left@) =~= shown(w, 0));
        while i < e.unique.len()
            invariant
                i <= e.unique.len(),
                e == e0,
                e0.wf(m),
                w == e0@,
                keys(left@) == shown(w, i as int),
                all_wf(left@),
                forall|j: int|
                    0 <= j < left.len() ==> crate::qwen35::waves::patches((#[trigger] left[j])@) <= 0x3_ffff_ffc0,
            decreases e.unique.len() - i,
        {
            assert(w.unique[i as int] == e.unique[i as int]@);
            if e.shows(&e.unique[i]) {
                let ghost held = left@;
                assert(e0.unique[i as int].wf());
                left.push(e.unique[i].copy());
                proof {
                    assert(keys(left@) =~= keys(held).push(w.unique[i as int]));
                    assert forall|j: int| 0 <= j < left.len() implies crate::qwen35::waves::patches(
                        (#[trigger] left[j])@,
                    ) <= 0x3_ffff_ffc0 && left[j].wf() by {
                        if j < held.len() {
                            assert(left[j] == held[j]);
                        }
                    }
                }
            }
            i = i + 1;
        }
        e.unique = left;
        let ghost v = e@;
        proof {
            assert(e.wf(m)) by {
                assert forall|a: int, b: int|
                    0 <= a < e.requests.len() && 0 <= b < e.requests[a].layout.keys.len() implies known(
                    keys(e.unique@),
                    #[trigger] e.requests[a].layout.keys[b]@,
                ) by {
                    let k = e0.requests[a].layout.keys[b]@;
                    assert(known(w.unique, k));
                    let j = choose|j: int| 0 <= j < w.unique.len() && k.same_pixels(#[trigger] w.unique[j]);
                    assert(w.requests[a] == e0.requests[a]@);
                    assert(w.requests[a].laid.keys[b] == k);
                    assert(w.unique[j].same_pixels(k));
                    assert(is_shown(w, w.unique[j]));
                    lemma_shown(w, w.unique.len() as int, j);
                }
            }
        }
        self.encoding.insert(0, e);
        proof {
            lemma_front(before.encoding@, self.encoding@, rest, v, m);
        }
    }
}

/// Some prompt of the wave shows these pixels.
pub open spec fn is_shown(w: Wave, k: Key) -> bool {
    exists|a: int, b: int|
        0 <= a < w.requests.len() && 0 <= b < w.requests[a].laid.keys.len() && k.same_pixels(
            #[trigger] w.requests[a].laid.keys[b],
        )
}

/// The images that are shown, among the first `n`.
pub open spec fn shown(w: Wave, n: int) -> Seq<Key>
    decreases n,
{
    if n <= 0 {
        Seq::empty()
    } else if is_shown(w, w.unique[n - 1]) {
        shown(w, n - 1).push(w.unique[n - 1])
    } else {
        shown(w, n - 1)
    }
}

proof fn lemma_shown(w: Wave, n: int, j: int)
    requires
        0 <= j < n <= w.unique.len(),
        is_shown(w, w.unique[j]),
    ensures
        exists|i: int| 0 <= i < shown(w, n).len() && #[trigger] shown(w, n)[i] == w.unique[j],
    decreases n,
{
    if j == n - 1 {
        assert(shown(w, n)[shown(w, n - 1).len() as int] == w.unique[j]);
    } else {
        lemma_shown(w, n - 1, j);
        let i = choose|i: int| 0 <= i < shown(w, n - 1).len() && #[trigger] shown(w, n - 1)[i] == w.unique[j];
        assert(shown(w, n)[i] == w.unique[j]);
    }
}

impl Encoding {
    fn shows(&self, k: &ImageKey) -> (r: bool)
        ensures
            r == is_shown(self@, k@),
    {
        let ghost w = self@;
        let mut a: usize = 0;
        while a < self.requests.len()
            invariant
                a <= self.requests.len(),
                w == self@,
                forall|i: int, j: int|
                    0 <= i < a && 0 <= j < w.requests[i].laid.keys.len() ==> !k@.same_pixels(
                        #[trigger] w.requests[i].laid.keys[j],
                    ),
            decreases self.requests.len() - a,
        {
            let list = &self.requests[a].layout.keys;
            assert(w.requests[a as int] == self.requests[a as int]@);
            let mut b: usize = 0;
            while b < list.len()
                invariant
                    b <= list.len(),
                    a < self.requests.len(),
                    w == self@,
                    w.requests[a as int].laid.keys == keys(list@),
                    forall|j: int| 0 <= j < b ==> !k@.same_pixels(#[trigger] w.requests[a as int].laid.keys[j]),
                decreases list.len() - b,
            {
                assert(keys(list@)[b as int] == list[b as int]@);
                if k.same_image(&list[b]) {
                    assert(k@.same_pixels(w.requests[a as int].laid.keys[b as int]));
                    return true;
                }
                b = b + 1;
            }
            a = a + 1;
        }
        false
    }
}

} // verus!
