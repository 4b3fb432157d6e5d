//! Admission of image prompts in waves of bounded size, and the wave in the
//! tower. One wave is in the tower at a time and yields after each step.
use vstd::prelude::*;
use crate::error::{Fault, MetalError};
use crate::paddleocr::graph::{Image, Layout, Pending, Slot};
use crate::paddleocr::load::PaddleOcr;
use crate::paddleocr::multimodal::{
    image_count, lay, lay_chunks, lay_prompt, lemma_patch_floor, lemma_same_patches,
    requests, Chunk, Encoding, Laid, Planned, Request,
};
use crate::paddleocr::tower::MAX_PATCHES;
use crate::paddleocr::vision::{
    patches_before, picture_wf, pictures, pictures_wf, Input, Job, Picture,
};
use crate::program::Buffer;

verus! {

/// What became of a prompt.
#[derive(Clone, Copy, Debug, PartialEq, Eq, Structural)]
pub enum Outcome {
    Failed(MetalError),
    /// Its images wait for the tower.
    Encoding,
    /// Its rows wait for a tick.
    Queued,
}

/// Rotary coordinates and images of a prompt, as a value.
pub struct Placed {
    pub positions: Seq<Seq<u32>>,
    pub next: int,
    pub images: Seq<Image>,
}

impl View for Layout {
    type V = Placed;

    open spec fn view(&self) -> Placed {
        Placed {
            positions: self.positions@.map_values(|p: [u32; 4]| p@),
            next: self.next as int,
            images: self.images@,
        }
    }
}

/// A sequence, as a value.
pub struct Sequence {
    pub blocks: Seq<u32>,
    pub history: Seq<u32>,
    pub reused: int,
    pub mm: Option<Placed>,
}

impl View for Slot {
    type V = Sequence;

    open spec fn view(&self) -> Sequence {
        Sequence {
            blocks: self.blocks@,
            history: self.history@,
            reused: self.reused as int,
            mm: match self.mm {
                Some(l) => Some(l@),
                None => None,
            },
        }
    }
}

pub open spec fn blank() -> Sequence {
    Sequence { blocks: Seq::empty(), history: Seq::empty(), reused: 0, mm: None }
}

pub open spec fn sequences(s: Seq<Slot>) -> Seq<Sequence> {
    s.map_values(|x: Slot| x@)
}

/// A prompt in progress, as a value.
pub struct Prompt {
    pub slot: usize,
    pub tokens: Seq<u32>,
    pub offset: int,
    pub work: int,
}

impl View for Pending {
    type V = Prompt;

    open spec fn view(&self) -> Prompt {
        Prompt {
            slot: self.slot,
            tokens: self.tokens@,
            offset: self.offset as int,
            work: self.work as int,
        }
    }
}

pub open spec fn prompts(p: Seq<Pending>) -> Seq<Prompt> {
    p.map_values(|x: Pending| x@)
}

/// A wave, as a value.
pub struct Wave {
    pub requests: Seq<Planned>,
    pub images: Seq<Picture>,
    pub job: Option<Job>,
}

impl View for Encoding {
    type V = Wave;

    open spec fn view(&self) -> Wave {
        Wave { requests: requests(self.requests@), images: pictures(self.images@), job: self.job }
    }
}

pub open spec fn waves(e: Seq<Encoding>) -> Seq<Wave> {
    e.map_values(|x: Encoding| x@)
}

pub open spec fn no_wave() -> Wave {
    Wave { requests: Seq::empty(), images: Seq::empty(), job: None }
}

pub open spec fn wave_owns(w: Wave, slot: usize) -> bool {
    exists|i: int| 0 <= i < w.requests.len() && (#[trigger] w.requests[i]).slot == slot
}

pub open spec fn queue_owns(queue: Seq<Wave>, slot: usize) -> bool {
    exists|i: int| 0 <= i < queue.len() && wave_owns(#[trigger] queue[i], slot)
}

impl PaddleOcr {
    pub open spec fn prefilling(&self, slot: usize) -> bool {
        exists|i: int| 0 <= i < self.pending.len() && (#[trigger] self.pending[i]).slot == slot
    }

    /// A slot that cannot take an image prompt while `queue` waits.
    pub open spec fn busy(&self, queue: Seq<Wave>, slot: usize) -> bool {
        ||| slot >= self.slots.len()
        ||| self.prefilling(slot)
        ||| queue_owns(queue, slot)
        ||| self.vision is None
    }

    /// The layout of a prompt, or why it is refused.
    pub open spec fn planned(&self, queue: Seq<Wave>, slot: usize, chunks: Seq<Chunk>) -> Result<
        Laid,
        MetalError,
    > {
        if self.busy(queue, slot) {
            Err(MetalError::Model(Fault::Busy))
        } else {
            lay_prompt(slot, chunks, self.context)
        }
    }

    pub fn has_pending(&self, slot: usize) -> (r: bool)
        ensures
            r == self.prefilling(slot),
    {
        let mut i: usize = 0;
        while i < self.pending.len()
            invariant
                i <= self.pending.len(),
                forall|j: int| 0 <= j < i ==> (#[trigger] self.pending[j]).slot != slot,
            decreases self.pending.len() - i,
        {
            if self.pending[i].slot == slot {
                return true;
            }
            i = i + 1;
        }
        false
    }

    /// Whether a wave holds a prompt of the slot.
    pub fn is_encoding(&self, slot: usize) -> (r: bool)
        ensures
            r == queue_owns(waves(self.encoding@), slot),
    {
        let ghost queue = waves(self.encoding@);
        let mut i: usize = 0;
        while i < self.encoding.len()
            invariant
                i <= self.encoding.len(),
                queue == waves(self.encoding@),
                forall|j: int| 0 <= j < i ==> !wave_owns(#[trigger] queue[j], slot),
            decreases self.encoding.len() - i,
        {
            assert(queue[i as int] == self.encoding[i as int]@);
            if self.encoding[i].owns(slot) {
                proof {
                    let e = self.encoding[i as int];
                    let k = choose|k: int|
                        0 <= k < e.requests.len() && (#[trigger] e.requests[k]).slot == slot;
                    assert(queue[i as int].requests[k].slot == slot);
                    assert(wave_owns(queue[i as int], slot));
                }
                return true;
            }
            proof {
                let e = self.encoding[i as int];
                if wave_owns(queue[i as int], slot) {
                    let k = choose|k: int|
                        0 <= k < e@.requests.len() && (#[trigger] e@.requests[k]).slot == slot;
                    assert(e.requests[k].slot == slot);
                }
            }
            i = i + 1;
        }
        false
    }

    /// Plan one prompt against the waves that already wait.
    pub fn plan(&self, slot: usize, chunks: Vec<Chunk>) -> (r: Result<(Request, Vec<Input>), MetalError>)
        requires
            self.wf(),
        ensures
            match self.planned(waves(self.encoding@), slot, chunks@) {
                Err(e) => r == Err::<(Request, Vec<Input>), MetalError>(e),
                Ok(l) => {
                    &&& r matches Ok((request, images))
                    &&& request@ == l.request
                    &&& pictures(images@) == l.images
                    &&& request.wf(
                        self.slots.len() as int,
                        self.context as int,
                        images.len() as int,
                    )
                    &&& request.slot == slot
                    &&& pictures_wf(l.images)
                },
            },
    {
        if slot >= self.slots.len() || self.has_pending(slot) || self.is_encoding(slot)
            || self.vision.is_none() {
            return Err(MetalError::Model(Fault::Busy));
        }
        match lay(slot, chunks, self.context) {
            Err(e) => Err(e),
            Ok((request, images)) => {
                if images.len() == 0 || exceeds(&images) {
                    return Err(MetalError::Model(Fault::NoImage));
                }
                proof {
                    lemma_rows(slot, chunks@, self.context, chunks.len() as int);
                }
                Ok((request, images))
            },
        }
    }
}

/// A prompt with an image has rows, and belongs to its slot.
proof fn lemma_rows(slot: usize, chunks: Seq<Chunk>, context: usize, n: int)
    requires
        lay_chunks(slot, chunks, context, n) is Ok,
    ensures
        ({
            let l = lay_chunks(slot, chunks, context, n)->Ok_0;
            &&& l.request.slot == slot
            &&& l.images.len() > 0 ==> l.request.ids.len() > 0
        }),
    decreases n,
{
    if n > 0 {
        lemma_rows(slot, chunks, context, n - 1);
        if let Chunk::Image { w, h, cells, .. } = chunks[n - 1] {
            let b = crate::paddleocr::multimodal::pixel_budget(chunks, chunks.len() as int);
            crate::paddleocr::resize::granted_sizes_are_whole_cells(
                w as int,
                h as int,
                b.0 as int,
                b.1 as int,
                cells,
            );
            let (tw, th) = crate::paddleocr::resize::resized(
                w as int,
                h as int,
                b.0 as int,
                b.1 as int,
                cells,
            )->Ok_0;
            let nx = tw as int / 28;
            let ny = th as int / 28;
            assert(nx * ny >= 1) by (nonlinear_arith)
                requires
                    nx >= 1,
                    ny >= 1,
            ;
        }
    }
}

fn patch_total(images: &Vec<Input>) -> (r: Option<usize>)
    requires
        pictures_wf(pictures(images@)),
    ensures
        match r {
            Some(n) => n == patches_before(pictures(images@), images.len() as int) && n <= MAX_PATCHES,
            None => patches_before(pictures(images@), images.len() as int) > MAX_PATCHES,
        },
{
    crate::paddleocr::vision::count_patches(images)
}

fn exceeds(images: &Vec<Input>) -> (r: bool)
    requires
        pictures_wf(pictures(images@)),
    ensures
        r == (patches_before(pictures(images@), images.len() as int) > MAX_PATCHES),
{
    patch_total(images).is_none()
}

/// A request whose spans count from image `by` of its wave.
pub open spec fn shifted(r: Planned, by: int) -> Planned {
    Planned {
        spans: r.spans.map_values(|s: (usize, usize, usize)| ((s.0 + by) as usize, s.1, s.2)),
        ..r
    }
}

/// Admission so far.
pub struct Admission {
    /// Waves that wait, those from before included.
    pub queue: Seq<Wave>,
    /// The wave under construction.
    pub wave: Wave,
    pub slots: Seq<Sequence>,
    pub freed: Seq<Seq<u32>>,
    pub out: Seq<(usize, Outcome)>,
}

pub open spec fn wave_patches(w: Wave) -> int {
    patches_before(w.images, w.images.len() as int)
}

impl PaddleOcr {
    /// Admit one more prompt. A wave that would exceed its patches is closed
    /// first; an admitted prompt starts with a blank slot.
    pub open spec fn admission_step(&self, a: Admission, slot: usize, chunks: Seq<Chunk>) -> Admission {
        let verdict = if wave_owns(a.wave, slot) {
            Err(MetalError::Model(Fault::Duplicate))
        } else {
            self.planned(a.queue, slot, chunks)
        };
        match verdict {
            Err(e) => Admission { out: a.out.push((slot, Outcome::Failed(e))), ..a },
            Ok(l) => {
                let full = wave_patches(a.wave) + patches_before(l.images, l.images.len() as int)
                    > MAX_PATCHES;
                let w = if full { no_wave() } else { a.wave };
                Admission {
                    queue: if full { a.queue.push(a.wave) } else { a.queue },
                    wave: Wave {
                        requests: w.requests.push(shifted(l.request, w.images.len() as int)),
                        images: w.images + l.images,
                        job: None,
                    },
                    slots: a.slots.update(slot as int, blank()),
                    freed: a.freed.push(a.slots[slot as int].blocks),
                    out: a.out.push((slot, Outcome::Encoding)),
                }
            },
        }
    }

    /// The first `n` prompts.
    pub open spec fn admission(&self, items: Seq<(usize, Vec<Chunk>)>, n: int) -> Admission
        decreases n,
    {
        if n <= 0 {
            Admission {
                queue: waves(self.encoding@),
                wave: no_wave(),
                slots: sequences(self.slots@),
                freed: Seq::empty(),
                out: Seq::empty(),
            }
        } else {
            self.admission_step(self.admission(items, n - 1), items[n - 1].0, items[n - 1].1@)
        }
    }
}

/// Every prompt of an admission is answered once, in the order given.
pub proof fn every_prompt_is_answered(m: PaddleOcr, items: Seq<(usize, Vec<Chunk>)>, n: int)
    requires
        0 <= n <= items.len(),
    ensures
        m.admission(items, n).out.len() == n,
        forall|i: int| 0 <= i < n ==> (#[trigger] m.admission(items, n).out[i]).0 == items[i].0,
    decreases n,
{
    if n > 0 {
        every_prompt_is_answered(m, items, n - 1);
    }
}

/// No wave carries more patches than the tower takes.
pub proof fn waves_stay_within_the_tower(m: PaddleOcr, items: Seq<(usize, Vec<Chunk>)>, n: int)
    requires
        m.wf(),
        0 <= n <= items.len(),
    ensures
        ({
            let a = m.admission(items, n);
            &&& wave_patches(a.wave) <= MAX_PATCHES
            &&& forall|i: int| 0 <= i < a.queue.len() ==> wave_patches(#[trigger] a.queue[i]) <= MAX_PATCHES
        }),
    decreases n,
{
    if n > 0 {
        waves_stay_within_the_tower(m, items, n - 1);
        let a = m.admission(items, n - 1);
        let slot = items[n - 1].0;
        if !wave_owns(a.wave, slot) {
            if let Ok(l) = m.planned(a.queue, slot, items[n - 1].1@) {
                lemma_joined(a.wave.images, l.images, l.images.len() as int);
                lemma_joined(no_wave().images, l.images, l.images.len() as int);
            }
        }
    } else {
        let queue = waves(m.encoding@);
        assert forall|i: int| 0 <= i < queue.len() implies wave_patches(#[trigger] queue[i])
            <= MAX_PATCHES by {
            assert(queue[i] == m.encoding[i]@);
            assert(m.encoding[i].wf(m.slots.len() as int, m.context as int));
        }
    }
}

pub open spec fn closed(queue: Seq<Wave>, wave: Wave) -> Seq<Wave> {
    if wave.requests.len() == 0 { queue } else { queue.push(wave) }
}

#[derive(Debug)]
pub struct Admitted {
    pub out: Vec<(usize, Outcome)>,
    /// Page lists of the slots that were cleared.
    pub freed: Vec<Vec<u32>>,
}

pub open spec fn lists(v: Seq<Vec<u32>>) -> Seq<Seq<u32>> {
    v.map_values(|l: Vec<u32>| l@)
}

/// Everything but slots, prompts and waves.
pub open spec fn same_model(a: PaddleOcr, b: PaddleOcr) -> bool {
    &&& a.embedding == b.embedding
    &&& a.output_norm == b.output_norm
    &&& a.head == b.head
    &&& a.layers == b.layers
    &&& a.scratch == b.scratch
    &&& a.vision == b.vision
    &&& a.context == b.context
    &&& a.page_stride == b.page_stride
    &&& a.weight_bytes == b.weight_bytes
    &&& a.kv_bytes == b.kv_bytes
}

fn empty_wave() -> (r: Encoding)
    ensures
        r@ == no_wave(),
        r.requests.len() == 0,
        r.images.len() == 0,
        r.job is None,
        forall|slots: int, context: int| #[trigger] r.wf(slots, context),
{
    let r = Encoding { requests: Vec::new(), images: Vec::new(), job: None };
    proof {
        assert(requests(r.requests@) =~= Seq::<Planned>::empty());
        assert(pictures(r.images@) =~= Seq::<Picture>::empty());
    }
    r
}

/// Add a planned prompt to a wave.
fn join(wave: &mut Encoding, request: Request, images: Vec<Input>, Ghost(slots): Ghost<int>, Ghost(context): Ghost<
    int,
>)
    requires
        old(wave).wf(slots, context),
        old(wave).job is None,
        request.wf(slots, context, images.len() as int),
        pictures_wf(pictures(images@)),
        wave_patches(old(wave)@) + patches_before(pictures(images@), images.len() as int) <= MAX_PATCHES,
    ensures
        final(wave).wf(slots, context),
        final(wave).job is None,
        final(wave)@ == (Wave {
            requests: old(wave)@.requests.push(shifted(request@, old(wave)@.images.len() as int)),
            images: old(wave)@.images + pictures(images@),
            job: None,
        }),
{
    let by: usize = wave.images.len();
    let ghost start = *wave;
    let ghost asked = request@;
    let ghost given = pictures(images@);
    let ghost count = images.len() as int;
    proof {
        lemma_patch_floor(pictures(wave.images@), wave.images.len() as int);
        lemma_patch_floor(given, count);
        crate::paddleocr::waves::lemma_joined(pictures(wave.images@), given, given.len() as int);
    }
    let mut request = request;
    let ghost whole = shifted(asked, by as int);
    let mut i: usize = 0;
    while i < request.spans.len()
        invariant
            i <= request.spans.len(),
            by <= MAX_PATCHES,
            count <= MAX_PATCHES,
            request.slot == asked.slot,
            request.ids@ == asked.ids,
            request@.positions == asked.positions,
            request.positions.len() == request.ids.len(),
            request.next == asked.next,
            whole == shifted(asked, by as int),
            request.spans.len() == asked.spans.len(),
            forall|k: int| 0 <= k < asked.spans.len() ==> (#[trigger] asked.spans[k]).0 < count,
            forall|k: int| 0 <= k < i ==> #[trigger] request.spans[k] == whole.spans[k],
            forall|k: int|
                i <= k < request.spans.len() ==> #[trigger] request.spans[k] == asked.spans[k],
        decreases request.spans.len() - i,
    {
        let s = request.spans[i];
        assert(s == asked.spans[i as int]);
        request.spans.set(i, (s.0 + by, s.1, s.2));
        i = i + 1;
    }
    proof {
        assert(request@.spans =~= whole.spans);
        assert(request@ == whole);
    }
    let ghost before = wave.requests@;
    let ghost shown = request;
    wave.requests.push(request);
    let mut images = images;
    let ghost held = wave.images@;
    let ghost added = images@;
    wave.images.append(&mut images);
    proof {
        assert(wave.images@ =~= held + added);
        assert(pictures(wave.images@) =~= pictures(held) + given);
        assert(requests(wave.requests@) =~= requests(before).push(shown@));
        let all = pictures(wave.images@);
        assert forall|k: int| 0 <= k < all.len() implies picture_wf(#[trigger] all[k]) by {
            if k < held.len() {
                assert(all[k] == pictures(held)[k]);
            } else {
                assert(all[k] == given[k - held.len()]);
            }
        }
        assert forall|k: int| 0 <= k < wave.requests.len() implies (#[trigger] wave.requests[k]).wf(
            slots,
            context,
            image_count(*wave),
        ) by {
            if k < before.len() {
                assert(wave.requests[k] == start.requests[k]);
                assert(start.requests[k].wf(slots, context, image_count(start)));
            } else {
                assert forall|j: int| 0 <= j < shown.spans.len() implies (#[trigger] shown.spans[j]).0
                    < image_count(*wave) by {
                    assert(shown.spans[j] == whole.spans[j]);
                    assert(asked.spans[j].0 < count);
                }
            }
        }
    }
}

pub proof fn lemma_joined(a: Seq<Picture>, b: Seq<Picture>, n: int)
    requires
        0 <= n <= b.len(),
    ensures
        patches_before(a + b, a.len() as int + n) == patches_before(a, a.len() as int) + patches_before(
            b,
            n,
        ),
    decreases n,
{
    if n > 0 {
        lemma_joined(a, b, n - 1);
        assert((a + b)[a.len() + n - 1] == b[n - 1]);
    } else {
        lemma_same_patches(a, a + b, a.len() as int);
    }
}

impl PaddleOcr {
    pub fn blank_slot(&mut self, slot: usize) -> (r: Vec<u32>)
        requires
            old(self).wf(),
            slot < old(self).slots.len(),
        ensures
            final(self).wf(),
            same_model(*final(self), *old(self)),
            final(self).pending == old(self).pending,
            final(self).encoding == old(self).encoding,
            final(self).slots.len() == old(self).slots.len(),
            sequences(final(self).slots@) == sequences(old(self).slots@).update(slot as int, blank()),
            r@ == sequences(old(self).slots@)[slot as int].blocks,
    {
        let ghost before = self.slots@;
        let mut blocks: Vec<u32> = Vec::new();
        std::mem::swap(&mut self.slots[slot].blocks, &mut blocks);
        self.slots[slot].history = Vec::new();
        self.slots[slot].reused = 0;
        self.slots[slot].mm = None;
        proof {
            assert(self.slots[slot as int]@ == blank());
            assert(sequences(self.slots@) =~= sequences(before).update(slot as int, blank()));
            assert forall|i: int| 0 <= i < self.slots.len() implies (#[trigger] self.slots[i]).history.len()
                <= self.context by {
                assert(before[i].history.len() <= self.context);
            }
        }
        blocks
    }

    fn enqueue(&mut self, wave: Encoding)
        requires
            old(self).wf(),
            wave.wf(old(self).slots.len() as int, old(self).context as int),
        ensures
            final(self).wf(),
            same_model(*final(self), *old(self)),
            final(self).pending == old(self).pending,
            final(self).slots == old(self).slots,
            waves(final(self).encoding@) == waves(old(self).encoding@).push(wave@),
    {
        let ghost before = self.encoding@;
        let ghost shown = wave;
        self.encoding.push(wave);
        proof {
            assert(waves(self.encoding@) =~= waves(before).push(shown@));
            assert forall|i: int| 0 <= i < self.encoding.len() implies (#[trigger] self.encoding[i]).wf(
                self.slots.len() as int,
                self.context as int,
            ) by {
                if i < before.len() {
                    assert(self.encoding[i] == before[i]);
                }
            }
        }
    }

    /// Admit image prompts. Each is refused by itself; the others wait for
    /// the tower in waves of bounded size.
    pub fn admit_images(&mut self, items: Vec<(usize, Vec<Chunk>)>) -> (r: Admitted)
        requires
            old(self).wf(),
        ensures
            final(self).wf(),
            same_model(*final(self), *old(self)),
            final(self).pending == old(self).pending,
            ({
                let a = old(self).admission(items@, items.len() as int);
                &&& r.out@ == a.out
                &&& lists(r.freed@) == a.freed
                &&& sequences(final(self).slots@) == a.slots
                &&& waves(final(self).encoding@) == closed(a.queue, a.wave)
            }),
    {
        let ghost all = items@;
        let ghost start = *self;
        let total: usize = items.len();
        let mut rest = items;
        let mut out: Vec<(usize, Outcome)> = Vec::new();
        let mut freed: Vec<Vec<u32>> = Vec::new();
        let mut wave = empty_wave();
        let mut k: usize = 0;
        proof {
            assert(all.skip(0) =~= all);
            assert(lists(freed@) =~= Seq::<Seq<u32>>::empty());
        }
        while k < total
            invariant
                k <= total == all.len(),
                all == items@,
                rest@ == all.skip(k as int),
                start == *old(self),
                self.wf(),
                same_model(*self, start),
                self.pending == start.pending,
                self.slots.len() == start.slots.len(),
                wave.wf(self.slots.len() as int, self.context as int),
                wave.job is None,
                ({
                    let a = start.admission(all, k as int);
                    &&& out@ == a.out
                    &&& lists(freed@) == a.freed
                    &&& sequences(self.slots@) == a.slots
                    &&& waves(self.encoding@) == a.queue
                    &&& wave@ == a.wave
                }),
            decreases total - k,
        {
            let ghost a = start.admission(all, k as int);
            let (slot, chunks) = rest.remove(0);
            proof {
                assert((slot, chunks) == all[k as int]);
                assert(rest@ =~= all.skip(k + 1));
                lemma_owns(wave, slot);
                assert(start.admission(all, k + 1) == start.admission_step(a, slot, chunks@));
            }
            let ghost parts = chunks@;
            if wave.owns(slot) {
                out.push((slot, Outcome::Failed(MetalError::Model(Fault::Duplicate))));
            } else {
                proof {
                    lemma_busy(start, *self, a.queue, slot);
                }
                match self.plan(slot, chunks) {
                    Err(e) => {
                        out.push((slot, Outcome::Failed(e)));
                    },
                    Ok((request, images)) => {
                        let held: usize = match patch_total(&wave.images) {
                            Some(n) => n,
                            None => 0,
                        };
                        let count: usize = match patch_total(&images) {
                            Some(n) => n,
                            None => 0,
                        };
                        if held + count > MAX_PATCHES {
                            let mut full = empty_wave();
                            std::mem::swap(&mut wave, &mut full);
                            self.enqueue(full);
                        }
                        let list = self.blank_slot(slot);
                        join(
                            &mut wave,
                            request,
                            images,
                            Ghost(self.slots.len() as int),
                            Ghost(self.context as int),
                        );
                        let ghost lists_before = freed@;
                        let ghost list_view = list@;
                        freed.push(list);
                        assert(lists(freed@) =~= lists(lists_before).push(list_view));
                        out.push((slot, Outcome::Encoding));
                    },
                }
            }
            k = k + 1;
        }
        if !wave.empty() {
            self.enqueue(wave);
        }
        Admitted { out, freed }
    }
}

proof fn lemma_owns(e: Encoding, slot: usize)
    ensures
        e.owned(slot) == wave_owns(e@, slot),
{
    if e.owned(slot) {
        let k = choose|k: int| 0 <= k < e.requests.len() && (#[trigger] e.requests[k]).slot == slot;
        assert(e@.requests[k].slot == slot);
    }
    if wave_owns(e@, slot) {
        let k = choose|k: int| 0 <= k < e@.requests.len() && (#[trigger] e@.requests[k]).slot == slot;
        assert(e.requests[k].slot == slot);
    }
}

proof fn lemma_busy(a: PaddleOcr, b: PaddleOcr, queue: Seq<Wave>, slot: usize)
    requires
        same_model(a, b),
        a.pending == b.pending,
        a.slots.len() == b.slots.len(),
    ensures
        a.busy(queue, slot) == b.busy(queue, slot),
{
}

/// What the tower is to do next.
#[derive(Clone, Copy, Debug, PartialEq, Eq, Structural)]
pub enum TowerAction {
    Idle,
    /// Start the first wave.
    Start,
    /// Run its next step.
    Step,
}

/// What the tower did.
#[derive(Debug)]
pub enum TowerEvent {
    /// The wave has started.
    Started(Job),
    /// One block has run.
    Advanced,
    /// The projector has run; one buffer per image.
    Finished(Vec<Buffer>),
    Failed(MetalError),
}

/// Images of a request among the outputs of its wave.
pub open spec fn placed_images(r: Planned, outputs: Seq<Buffer>) -> Seq<Image> {
    r.spans.map_values(
        |s: (usize, usize, usize)| Image { offset: s.1, tokens: s.2, embd: outputs[s.0 as int] },
    )
}

/// The first `n` requests seated in their slots.
pub open spec fn seated(slots: Seq<Sequence>, rs: Seq<Planned>, outputs: Seq<Buffer>, n: int) -> Seq<Sequence>
    decreases n,
{
    if n <= 0 {
        slots
    } else {
        let before = seated(slots, rs, outputs, n - 1);
        let r = rs[n - 1];
        before.update(
            r.slot as int,
            Sequence {
                mm: Some(
                    Placed {
                        positions: r.positions,
                        next: r.next,
                        images: placed_images(r, outputs),
                    },
                ),
                ..before[r.slot as int]
            },
        )
    }
}

pub open spec fn queued(r: Planned) -> Prompt {
    Prompt { slot: r.slot, tokens: r.ids, offset: 0, work: r.ids.len() as int }
}

pub open spec fn verdicts(rs: Seq<Planned>, o: Outcome) -> Seq<(usize, Outcome)> {
    rs.map_values(|r: Planned| (r.slot, o))
}

impl PaddleOcr {
    /// The tower's next action.
    pub fn tower_action(&self) -> (r: TowerAction)
        ensures
            r == if self.encoding.len() == 0 {
                TowerAction::Idle
            } else if self.encoding[0].job is None {
                TowerAction::Start
            } else {
                TowerAction::Step
            },
    {
        if self.encoding.len() == 0 {
            TowerAction::Idle
        } else if self.encoding[0].job.is_none() {
            TowerAction::Start
        } else {
            TowerAction::Step
        }
    }

    /// An event that can follow the tower's action.
    pub open spec fn event_fits(&self, event: TowerEvent) -> bool {
        &&& self.encoding.len() > 0
        &&& match event {
            TowerEvent::Started(j) => {
                &&& self.encoding[0].job is None
                &&& j.wf()
                &&& j.sizes.len() == self.encoding[0].images.len()
            },
            TowerEvent::Advanced => self.encoding[0].job matches Some(j) && j.layer < 27,
            TowerEvent::Finished(out) => self.encoding[0].job matches Some(j) && out.len()
                == j.sizes.len(),
            TowerEvent::Failed(_) => true,
        }
    }

    /// Take note of what the tower did with the first wave. A started or
    /// advanced wave stays first; a finished one seats its prompts, a failed
    /// one refuses them, and both leave the queue.
    pub fn encode_images(&mut self, event: TowerEvent) -> (r: Vec<(usize, Outcome)>)
        requires
            old(self).wf(),
            old(self).event_fits(event),
        ensures
            final(self).wf(),
            same_model(*final(self), *old(self)),
            ({
                let first = old(self).encoding[0]@;
                let rest = waves(old(self).encoding@).drop_first();
                match event {
                    TowerEvent::Started(j) => {
                        &&& r@ == Seq::<(usize, Outcome)>::empty()
                        &&& final(self).slots == old(self).slots
                        &&& final(self).pending == old(self).pending
                        &&& waves(final(self).encoding@) == seq![
                            Wave { requests: first.requests, images: Seq::empty(), job: Some(j) },
                        ] + rest
                    },
                    TowerEvent::Advanced => {
                        &&& r@ == Seq::<(usize, Outcome)>::empty()
                        &&& final(self).slots == old(self).slots
                        &&& final(self).pending == old(self).pending
                        &&& final(self).encoding.len() == old(self).encoding.len()
                        &&& waves(final(self).encoding@).drop_first() == rest
                        &&& final(self).encoding[0]@.requests == first.requests
                        &&& final(self).encoding[0]@.images == first.images
                        &&& final(self).encoding[0].job matches Some(j)
                        &&& j.layer == first.job->0.layer + 1
                        &&& j.sizes == first.job->0.sizes
                        &&& j.rows == first.job->0.rows
                        &&& j.buffers() == first.job->0.buffers()
                    },
                    TowerEvent::Finished(out) => {
                        &&& r@ == verdicts(first.requests, Outcome::Queued)
                        &&& waves(final(self).encoding@) == rest
                        &&& sequences(final(self).slots@) == seated(
                            sequences(old(self).slots@),
                            first.requests,
                            out@,
                            first.requests.len() as int,
                        )
                        &&& prompts(final(self).pending@) == prompts(old(self).pending@)
                            + first.requests.map_values(|q: Planned| queued(q))
                    },
                    TowerEvent::Failed(e) => {
                        &&& r@ == verdicts(first.requests, Outcome::Failed(e))
                        &&& waves(final(self).encoding@) == rest
                        &&& final(self).slots == old(self).slots
                        &&& final(self).pending == old(self).pending
                    },
                }
            }),
    {
        let ghost before = self.encoding@;
        let slots: usize = self.slots.len();
        let mut e = self.encoding.remove(0);
        proof {
            assert(e == before[0]);
            assert(e.wf(self.slots.len() as int, self.context as int));
            assert(waves(self.encoding@) =~= waves(before).drop_first());
            assert forall|i: int| 0 <= i < self.encoding.len() implies (#[trigger] self.encoding[i]).wf(
                self.slots.len() as int,
                self.context as int,
            ) by {
                assert(self.encoding[i] == before[i + 1]);
            }
        }
        let ghost rest = self.encoding@;
        let ghost first = e@;
        match event {
            TowerEvent::Started(j) => {
                proof {
                    lemma_patch_floor(pictures(e.images@), e.images.len() as int);
                }
                e.job = Some(j);
                e.images = Vec::new();
                let ghost now = e;
                proof {
                    assert(pictures(e.images@) =~= Seq::<Picture>::empty());
                    assert forall|k: int| 0 <= k < e.requests.len() implies (#[trigger] e.requests[k]).wf(
                        self.slots.len() as int,
                        self.context as int,
                        image_count(e),
                    ) by {
                        assert(before[0].requests[k].wf(
                            self.slots.len() as int,
                            self.context as int,
                            image_count(before[0]),
                        ));
                    }
                }
                self.encoding.insert(0, e);
                proof {
                    lemma_front(rest, self.encoding@, now, self.slots.len() as int, self.context as int);
                    assert(waves(self.encoding@) =~= seq![now@] + waves(rest));
                }
                Vec::new()
            },
            TowerEvent::Advanced => {
                let job = e.job;
                e.job = None;
                if let Some(mut j) = job {
                    j.advance();
                    e.job = Some(j);
                }
                let ghost now = e;
                proof {
                    assert forall|k: int| 0 <= k < e.requests.len() implies (#[trigger] e.requests[k]).wf(
                        self.slots.len() as int,
                        self.context as int,
                        image_count(e),
                    ) by {
                        assert(before[0].requests[k].wf(
                            self.slots.len() as int,
                            self.context as int,
                            image_count(before[0]),
                        ));
                    }
                }
                self.encoding.insert(0, e);
                proof {
                    lemma_front(rest, self.encoding@, now, self.slots.len() as int, self.context as int);
                    assert(waves(self.encoding@).drop_first() =~= waves(rest));
                }
                Vec::new()
            },
            TowerEvent::Failed(err) => {
                let mut out: Vec<(usize, Outcome)> = Vec::new();
                let mut k: usize = 0;
                while k < e.requests.len()
                    invariant
                        k <= e.requests.len(),
                        first == e@,
                        out@ == verdicts(first.requests, Outcome::Failed(err)).take(k as int),
                    decreases e.requests.len() - k,
                {
                    assert(first.requests[k as int] == e.requests[k as int]@);
                    out.push((e.requests[k].slot, Outcome::Failed(err)));
                    assert(out@ =~= verdicts(first.requests, Outcome::Failed(err)).take(k + 1));
                    k = k + 1;
                }
                assert(out@ =~= verdicts(first.requests, Outcome::Failed(err)));
                out
            },
            TowerEvent::Finished(outputs) => self.seat(e, &outputs),
        }
    }

    /// Seat the prompts of a finished wave.
    fn seat(&mut self, e: Encoding, outputs: &Vec<Buffer>) -> (r: Vec<(usize, Outcome)>)
        requires
            old(self).wf(),
            e.wf(old(self).slots.len() as int, old(self).context as int),
            image_count(e) == outputs.len(),
        ensures
            final(self).wf(),
            same_model(*final(self), *old(self)),
            final(self).encoding == old(self).encoding,
            r@ == verdicts(e@.requests, Outcome::Queued),
            sequences(final(self).slots@) == seated(
                sequences(old(self).slots@),
                e@.requests,
                outputs@,
                e.requests.len() as int,
            ),
            prompts(final(self).pending@) == prompts(old(self).pending@) + e@.requests.map_values(
                |q: Planned| queued(q),
            ),
    {
        let ghost start = *self;
        let ghost rs = e@.requests;
        let ghost want = rs.map_values(|q: Planned| queued(q));
        let ghost held = e.requests@;
        let total: usize = e.requests.len();
        let mut rest = e.requests;
        let mut out: Vec<(usize, Outcome)> = Vec::new();
        let mut k: usize = 0;
        proof {
            assert(held.skip(0) =~= held);
            assert(prompts(start.pending@) + want.take(0) =~= prompts(start.pending@));
        }
        while k < total
            invariant
                k <= total == held.len(),
                rs == requests(held),
                rest@ == held.skip(k as int),
                want == rs.map_values(|q: Planned| queued(q)),
                self.wf(),
                same_model(*self, start),
                self.encoding == start.encoding,
                self.slots.len() == start.slots.len(),
                forall|i: int|
                    0 <= i < held.len() ==> (#[trigger] held[i]).wf(
                        start.slots.len() as int,
                        start.context as int,
                        outputs.len() as int,
                    ),
                out@ == verdicts(rs, Outcome::Queued).take(k as int),
                sequences(self.slots@) == seated(sequences(start.slots@), rs, outputs@, k as int),
                prompts(self.pending@) == prompts(start.pending@) + want.take(k as int),
            decreases total - k,
        {
            let q = rest.remove(0);
            proof {
                assert(q == held[k as int]);
                assert(rs[k as int] == q@);
                assert(rest@ =~= held.skip(k + 1));
                assert(q.wf(start.slots.len() as int, start.context as int, outputs.len() as int));
            }
            let ghost asked = q@;
            let mut images: Vec<Image> = Vec::new();
            let mut i: usize = 0;
            while i < q.spans.len()
                invariant
                    i <= q.spans.len(),
                    asked == q@,
                    q.wf(start.slots.len() as int, start.context as int, outputs.len() as int),
                    images@ == placed_images(asked, outputs@).take(i as int),
                decreases q.spans.len() - i,
            {
                let s = q.spans[i];
                images.push(Image { offset: s.1, tokens: s.2, embd: outputs[s.0] });
                assert(images@ =~= placed_images(asked, outputs@).take(i + 1));
                i = i + 1;
            }
            assert(images@ =~= placed_images(asked, outputs@));
            let slot: usize = q.slot;
            let ghost before = self.slots@;
            let ghost jobs = self.pending@;
            self.slots[slot].mm = Some(Layout { positions: q.positions, next: q.next, images });
            let work: usize = q.ids.len();
            self.pending.push(Pending { slot, work, tokens: q.ids, offset: 0 });
            out.push((slot, Outcome::Queued));
            proof {
                let seat = Sequence {
                    mm: Some(
                        Placed {
                            positions: asked.positions,
                            next: asked.next,
                            images: placed_images(asked, outputs@),
                        },
                    ),
                    ..before[slot as int]@
                };
                assert(self.slots[slot as int]@ == seat);
                assert(sequences(self.slots@) =~= sequences(before).update(slot as int, seat));
                assert(self.pending@.last()@ == queued(asked));
                assert(prompts(self.pending@) =~= prompts(jobs).push(queued(asked)));
                assert(want.take(k + 1) =~= want.take(k as int).push(queued(asked)));
                assert(prompts(self.pending@) =~= prompts(start.pending@) + want.take(k + 1));
                assert(out@ =~= verdicts(rs, Outcome::Queued).take(k + 1));
                assert forall|i: int| 0 <= i < self.slots.len() implies (
                #[trigger] self.slots[i]).history.len() <= self.context by {
                    assert(before[i].history.len() <= self.context);
                }
            }
            k = k + 1;
        }
        proof {
            assert(want.take(total as int) =~= want);
            assert(out@ =~= verdicts(rs, Outcome::Queued));
        }
        out
    }
}

proof fn lemma_front(rest: Seq<Encoding>, now: Seq<Encoding>, e: Encoding, slots: int, context: int)
    requires
        now == rest.insert(0, e),
        e.wf(slots, context),
        forall|i: int| 0 <= i < rest.len() ==> (#[trigger] rest[i]).wf(slots, context),
    ensures
        now.len() == rest.len() + 1,
        now[0] == e,
        forall|i: int| 0 <= i < rest.len() ==> now[i + 1] == #[trigger] rest[i],
        forall|i: int| 0 <= i < now.len() ==> (#[trigger] now[i]).wf(slots, context),
{
    assert forall|i: int| 0 <= i < now.len() implies (#[trigger] now[i]).wf(slots, context) by {
        if i > 0 {
            assert(now[i] == rest[i - 1]);
        }
    }
}

} // verus!
