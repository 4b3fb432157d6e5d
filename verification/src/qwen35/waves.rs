//! Admission of image prompts: waves of bounded size for the tower. Equal
//! images of a wave are encoded once.
use vstd::prelude::*;
use crate::error::{Fault, MetalError};
use crate::program::Buffer;
use crate::qwen35::image::{all_wf, keys, ImageKey, Key};
use crate::qwen35::layout::{chunks_sized, laid, lay_prompt, layout, Chunk, Laid};
use crate::qwen35::state::{Layout, Qwen35};

verus! {

/// The most patches of one wave.
pub const WAVE_PATCHES: u128 = 65536;

/// The most entries and bytes of the image cache.
pub const CACHED_IMAGES: usize = 16;

pub const CACHED_BYTES: u128 = 0x1000_0000;

/// What an image prompt is told.
#[derive(Clone, Copy, Debug, PartialEq, Eq, Structural)]
pub enum Outcome {
    Failed(MetalError),
    /// Its images wait for the tower.
    Encoding,
    /// It waits for the decoder.
    Queued,
}

/// An image prompt in a wave.
#[derive(Debug)]
pub struct Request {
    pub slot: usize,
    pub layout: Layout,
}

/// An image prompt, as the contracts see it.
pub struct Asked {
    pub slot: usize,
    pub laid: Laid,
    pub images: Seq<Buffer>,
}

impl View for Request {
    type V = Asked;

    open spec fn view(&self) -> Asked {
        Asked { slot: self.slot, laid: laid(self.layout), images: self.layout.images@ }
    }
}

pub open spec fn asked(r: Seq<Request>) -> Seq<Asked> {
    r.map_values(|x: Request| x@)
}

/// Prompts that go through the tower together.
#[derive(Debug)]
pub struct Encoding {
    pub requests: Vec<Request>,
    /// Images with distinct pixels, in the order of their first use.
    pub unique: Vec<ImageKey>,
    /// The encoding of each, once it is known; empty before the image cache
    /// has been asked.
    pub outputs: Vec<Option<Buffer>>,
    /// Images still to encode, and those that the tower works on.
    pub missing: Vec<usize>,
    pub in_flight: Vec<usize>,
    pub job: bool,
}

/// A wave, as the contracts see it.
pub struct Wave {
    pub requests: Seq<Asked>,
    pub unique: Seq<Key>,
    pub outputs: Seq<Option<Buffer>>,
    pub missing: Seq<usize>,
    pub in_flight: Seq<usize>,
    pub job: bool,
}

impl View for Encoding {
    type V = Wave;

    open spec fn view(&self) -> Wave {
        Wave {
            requests: asked(self.requests@),
            unique: keys(self.unique@),
            outputs: self.outputs@,
            missing: self.missing@,
            in_flight: self.in_flight@,
            job: self.job,
        }
    }
}

pub open spec fn waves(e: Seq<Encoding>) -> Seq<Wave> {
    e.map_values(|x: Encoding| x@)
}

pub open spec fn no_wave() -> Wave {
    Wave {
        requests: Seq::empty(),
        unique: Seq::empty(),
        outputs: Seq::empty(),
        missing: Seq::empty(),
        in_flight: Seq::empty(),
        job: false,
    }
}

/// The encoding of an image that outlived its prompt.
#[derive(Debug)]
pub struct CachedImage {
    pub key: ImageKey,
    pub output: Buffer,
    pub touched: u64,
}

/// A cache within its bounds, of encodings that the machine can address.
pub open spec fn small_cache(c: Seq<CachedImage>) -> bool {
    &&& c.len() <= CACHED_IMAGES
    &&& forall|i: int| 0 <= i < c.len() ==> (#[trigger] c[i]).output.len <= usize::MAX && c[i].key.wf()
}

/// The tower's side of a decoder.
#[derive(Debug)]
pub struct Images {
    /// A tower is attached.
    pub attached: bool,
    pub encoding: Vec<Encoding>,
    pub cache: Vec<CachedImage>,
    pub reused: u64,
}

/// Some image of `unique` has these pixels.
pub open spec fn known(unique: Seq<Key>, k: Key) -> bool {
    exists|i: int| 0 <= i < unique.len() && k.same_pixels(#[trigger] unique[i])
}

pub open spec fn patches(k: Key) -> int {
    k.nx * k.ny * 4
}

/// Patches that a prompt could add to a wave.
pub open spec fn added(unique: Seq<Key>, images: Seq<Key>, n: int) -> int
    decreases n,
{
    if n <= 0 {
        0
    } else {
        added(unique, images, n - 1) + if known(unique, images[n - 1]) { 0 } else { patches(images[n - 1]) }
    }
}

/// Distinct images and their patches after the first `n` of a prompt.
pub open spec fn gathered(unique: Seq<Key>, count: int, images: Seq<Key>, n: int) -> (Seq<Key>, int)
    decreases n,
{
    if n <= 0 {
        (unique, count)
    } else {
        let (u, c) = gathered(unique, count, images, n - 1);
        let k = images[n - 1];
        if known(u, k) {
            (u, c)
        } else {
            (u.push(k), c + patches(k))
        }
    }
}

pub open spec fn wave_owns(w: Wave, slot: usize) -> bool {
    exists|i: int| 0 <= i < w.requests.len() && (#[trigger] w.requests[i]).slot == slot
}

pub open spec fn queue_owns(queue: Seq<Wave>, slot: usize) -> bool {
    exists|i: int| 0 <= i < queue.len() && wave_owns(#[trigger] queue[i], slot)
}

/// How far an admission has come.
pub struct Admission {
    pub out: Seq<(usize, Outcome)>,
    pub queue: Seq<Wave>,
    pub wave: Wave,
    /// Patches of the open wave.
    pub count: int,
}

impl Qwen35 {
    /// Why an image prompt is refused.
    pub open spec fn image_fault(&self, attached: bool, a: Admission, slot: usize, chunks: Seq<Chunk>) -> Option<
        Fault,
    > {
        if self.uncommitted {
            Some(Fault::Uncommitted)
        } else if slot >= self.slots.len() || self.unfinished(slot) || queue_owns(a.queue, slot)
            || wave_owns(a.wave, slot) {
            Some(Fault::Busy)
        } else if !attached {
            Some(Fault::Companion)
        } else {
            match lay_prompt(chunks, self.graph.vocab, self.graph.context) {
                Err(f) => Some(f),
                Ok(_) => None,
            }
        }
    }

    /// One more prompt: refused by itself, or put into a wave. A wave that it
    /// would overfill is closed first.
    pub open spec fn admission_step(&self, attached: bool, a: Admission, slot: usize, chunks: Seq<Chunk>) -> Admission {
        match self.image_fault(attached, a, slot, chunks) {
            Some(f) => Admission {
                out: a.out.push((slot, Outcome::Failed(MetalError::Model(f)))),
                ..a
            },
            None => {
                let l = lay_prompt(chunks, self.graph.vocab, self.graph.context)->Ok_0;
                let closes = a.wave.requests.len() > 0 && a.count + added(
                    a.wave.unique,
                    l.keys,
                    l.keys.len() as int,
                ) > WAVE_PATCHES;
                let wave = if closes { no_wave() } else { a.wave };
                let count = if closes { 0 } else { a.count };
                let (unique, total) = gathered(wave.unique, count, l.keys, l.keys.len() as int);
                Admission {
                    out: a.out.push((slot, Outcome::Encoding)),
                    queue: if closes { a.queue.push(a.wave) } else { a.queue },
                    wave: Wave {
                        requests: wave.requests.push(Asked { slot, laid: l, images: Seq::empty() }),
                        unique,
                        ..wave
                    },
                    count: total,
                }
            },
        }
    }

    /// The first `n` prompts.
    pub open spec fn admission(
        &self,
        attached: bool,
        queue: Seq<Wave>,
        items: Seq<(usize, Vec<Chunk>)>,
        n: int,
    ) -> Admission
        decreases n,
    {
        if n <= 0 {
            Admission { out: Seq::empty(), queue, wave: no_wave(), count: 0 }
        } else {
            self.admission_step(
                attached,
                self.admission(attached, queue, items, n - 1),
                items[n - 1].0,
                items[n - 1].1@,
            )
        }
    }
}

/// Every prompt is answered once, in the order of asking.
pub proof fn every_image_prompt_is_answered(
    m: Qwen35,
    attached: bool,
    queue: Seq<Wave>,
    items: Seq<(usize, Vec<Chunk>)>,
    n: int,
)
    requires
        0 <= n <= items.len(),
    ensures
        ({
            let a = m.admission(attached, queue, items, n);
            &&& a.out.len() == n
            &&& forall|i: int| 0 <= i < n ==> (#[trigger] a.out[i]).0 == items[i].0
            &&& forall|i: int| 0 <= i < n ==> (#[trigger] a.out[i]).1 != Outcome::Queued
        }),
    decreases n,
{
    if n > 0 {
        every_image_prompt_is_answered(m, attached, queue, items, n - 1);
    }
}

/// Patches of distinct images.
pub open spec fn patch_sum(unique: Seq<Key>) -> int
    decreases unique.len(),
{
    if unique.len() == 0 {
        0
    } else {
        patch_sum(unique.drop_last()) + patches(unique.last())
    }
}

proof fn lemma_patches(k: Key)
    ensures
        0 <= patches(k),
{
    assert(k.nx * k.ny >= 0) by (nonlinear_arith);
}

proof fn lemma_gathered_sum(unique: Seq<Key>, images: Seq<Key>, n: int)
    requires
        0 <= n <= images.len(),
    ensures
        ({
            let (u, c) = gathered(unique, patch_sum(unique), images, n);
            &&& c == patch_sum(u)
            &&& c <= patch_sum(unique) + added(unique, images, n)
            &&& forall|k: Key| #[trigger] known(unique, k) ==> known(u, k)
        }),
    decreases n,
{
    if n > 0 {
        lemma_gathered_sum(unique, images, n - 1);
        let (u, c) = gathered(unique, patch_sum(unique), images, n - 1);
        let k = images[n - 1];
        lemma_patches(k);
        assert(u.push(k).drop_last() =~= u);
        assert(known(unique, k) ==> known(u, k));
        assert forall|x: Key| #[trigger] known(u, x) implies known(u.push(k), x) by {
            let i = choose|i: int| 0 <= i < u.len() && x.same_pixels(#[trigger] u[i]);
            assert(u.push(k)[i] == u[i]);
        }
    }
}

pub open spec fn fits_tower(w: Wave) -> bool {
    w.requests.len() <= 1 || patch_sum(w.unique) <= WAVE_PATCHES
}

/// A wave of several prompts fits the tower's patches: only a prompt that is
/// alone in its wave may exceed them.
pub proof fn waves_of_several_prompts_fit_the_tower(
    m: Qwen35,
    attached: bool,
    queue: Seq<Wave>,
    items: Seq<(usize, Vec<Chunk>)>,
    n: int,
)
    requires
        0 <= n <= items.len(),
        forall|i: int| 0 <= i < queue.len() ==> fits_tower(#[trigger] queue[i]),
    ensures
        ({
            let a = m.admission(attached, queue, items, n);
            &&& a.count == patch_sum(a.wave.unique)
            &&& fits_tower(a.wave)
            &&& forall|i: int| 0 <= i < a.queue.len() ==> fits_tower(#[trigger] a.queue[i])
            &&& a.wave.requests.len() == 0 ==> a.wave.unique.len() == 0
        }),
    decreases n,
{
    if n > 0 {
        waves_of_several_prompts_fit_the_tower(m, attached, queue, items, n - 1);
        let a = m.admission(attached, queue, items, n - 1);
        let slot = items[n - 1].0;
        let chunks = items[n - 1].1@;
        if m.image_fault(attached, a, slot, chunks) is None {
            let l = lay_prompt(chunks, m.graph.vocab, m.graph.context)->Ok_0;
            lemma_gathered_sum(a.wave.unique, l.keys, l.keys.len() as int);
            lemma_gathered_sum(Seq::<Key>::empty(), l.keys, l.keys.len() as int);
            assert(no_wave().unique == Seq::<Key>::empty());
        }
    }
}

/// A wave with prompts joins the queue.
pub open spec fn closed(queue: Seq<Wave>, wave: Wave) -> Seq<Wave> {
    if wave.requests.len() > 0 { queue.push(wave) } else { queue }
}

impl Request {
    pub open spec fn wf(&self, m: &Qwen35) -> bool {
        &&& self.slot < m.slots.len()
        &&& self.layout.wf()
        &&& 0 < self.layout.ids.len() <= m.graph.context
    }
}

impl Encoding {
    /// Every image of a prompt is among the distinct ones; places are places
    /// of those.
    pub open spec fn wf(&self, m: &Qwen35) -> bool {
        &&& all_wf(self.unique@)
        &&& forall|i: int| 0 <= i < self.unique.len() ==> patches((#[trigger] self.unique[i])@) <= 0x3_ffff_ffc0
        &&& forall|i: int| 0 <= i < self.requests.len() ==> (#[trigger] self.requests[i]).wf(m)
        &&& forall|i: int, j: int|
            0 <= i < self.requests.len() && 0 <= j < self.requests[i].layout.keys.len() ==> known(
                keys(self.unique@),
                #[trigger] self.requests[i].layout.keys[j]@,
            )
        &&& self.outputs.len() == 0 || self.outputs.len() == self.unique.len()
        &&& forall|i: int| 0 <= i < self.missing.len() ==> #[trigger] self.missing[i] < self.unique.len()
        &&& forall|i: int| 0 <= i < self.in_flight.len() ==> #[trigger] self.in_flight[i] < self.unique.len()
        &&& self.outputs.len() == 0 ==> !self.job && self.missing.len() == 0 && self.in_flight.len() == 0
        &&& !self.job ==> self.in_flight.len() == 0
        &&& forall|i: int|
            0 <= i < self.outputs.len() ==> match #[trigger] self.outputs[i] {
                Some(b) => b.len <= usize::MAX,
                None => self.missing@.contains(i as usize) || self.in_flight@.contains(i as usize),
            }
    }

    pub fn new() -> (r: Self)
        ensures
            r@ == no_wave(),
            r.requests.len() == 0,
            r.unique.len() == 0,
            r.outputs.len() == 0,
            r.missing.len() == 0,
            r.in_flight.len() == 0,
            !r.job,
    {
        let r = Encoding {
            requests: Vec::new(),
            unique: Vec::new(),
            outputs: Vec::new(),
            missing: Vec::new(),
            in_flight: Vec::new(),
            job: false,
        };
        assert(r@.requests =~= no_wave().requests);
        assert(r@.unique =~= no_wave().unique);
        assert(r@ == no_wave());
        r
    }

    pub fn owns(&self, slot: usize) -> (r: bool)
        ensures
            r == wave_owns(self@, slot),
    {
        let mut i: usize = 0;
        while i < self.requests.len()
            invariant
                i <= self.requests.len(),
                forall|j: int| 0 <= j < i ==> (#[trigger] self@.requests[j]).slot != slot,
            decreases self.requests.len() - i,
        {
            assert(self@.requests[i as int] == self.requests[i as int]@);
            if self.requests[i].slot == slot {
                return true;
            }
            i = i + 1;
        }
        false
    }
}

/// Whether an image's pixels occur among `unique`, and where first.
pub open spec fn first_known(unique: Seq<Key>, k: Key, i: int) -> Option<int>
    decreases unique.len() - i,
{
    if i >= unique.len() {
        None
    } else if k.same_pixels(unique[i]) {
        Some(i)
    } else {
        first_known(unique, k, i + 1)
    }
}

pub proof fn lemma_first_known(unique: Seq<Key>, k: Key, i: int)
    requires
        0 <= i,
    ensures
        match first_known(unique, k, i) {
            Some(j) => i <= j < unique.len() && k.same_pixels(unique[j]),
            None => forall|j: int| i <= j < unique.len() ==> !k.same_pixels(#[trigger] unique[j]),
        },
    decreases unique.len() - i,
{
    if i < unique.len() {
        lemma_first_known(unique, k, i + 1);
    }
}

pub fn find_image(unique: &Vec<ImageKey>, k: &ImageKey) -> (r: Option<usize>)
    ensures
        match r {
            Some(i) => i < unique.len() && first_known(keys(unique@), k@, 0) == Some(i as int) && known(
                keys(unique@),
                k@,
            ),
            None => first_known(keys(unique@), k@, 0) is None && !known(keys(unique@), k@),
        },
{
    let ghost all = keys(unique@);
    let mut i: usize = 0;
    while i < unique.len()
        invariant
            i <= unique.len(),
            all == keys(unique@),
            first_known(all, k@, 0) == first_known(all, k@, i as int),
        decreases unique.len() - i,
    {
        assert(all[i as int] == unique[i as int]@);
        if k.same_image(&unique[i]) {
            return Some(i);
        }
        i = i + 1;
    }
    proof {
        lemma_first_known(all, k@, 0);
    }
    None
}

/// Images of a laid-out prompt are no larger than a context.
pub open spec fn modest(images: Seq<Key>) -> bool {
    forall|i: int| 0 <= i < images.len() ==> 0 <= patches(#[trigger] images[i]) <= 0x3_ffff_ffc0
}

proof fn lemma_modest(l: Layout)
    requires
        l.wf(),
    ensures
        modest(keys(l.keys@)),
{
    let all = keys(l.keys@);
    assert forall|i: int| 0 <= i < all.len() implies 0 <= patches(#[trigger] all[i]) <= 0x3_ffff_ffc0 by {
        assert(all[i] == l.keys[i]@);
        assert(l.keys[i]@.end() <= l.ids.len());
        assert(all[i].nx * all[i].ny >= 0) by (nonlinear_arith);
    }
}

fn count_added(unique: &Vec<ImageKey>, images: &Vec<ImageKey>) -> (r: u128)
    requires
        modest(keys(images@)),
    ensures
        r == added(keys(unique@), keys(images@), images.len() as int),
        r <= images.len() * 0x3_ffff_ffc0,
{
    let ghost all = keys(images@);
    let mut n: u128 = 0;
    let mut i: usize = 0;
    while i < images.len()
        invariant
            i <= images.len(),
            all == keys(images@),
            modest(all),
            n == added(keys(unique@), all, i as int),
            n <= i * 0x3_ffff_ffc0,
        decreases images.len() - i,
    {
        proof {
            assert(all[i as int] == images[i as int]@);
            assert(0 <= patches(all[i as int]) <= 0x3_ffff_ffc0);
        }
        if find_image(unique, &images[i]).is_none() {
            assert(images[i as int].nx * images[i as int].ny <= 0xffff_fff0);
            n = n + (images[i].nx * images[i].ny) as u128 * 4;
        }
        i = i + 1;
    }
    n
}

proof fn lemma_gathered(unique: Seq<Key>, count: int, images: Seq<Key>, n: int)
    requires
        0 <= n <= images.len(),
        modest(images),
    ensures
        count <= gathered(unique, count, images, n).1 <= count + added(unique, images, n),
        forall|k: Key| #[trigger] known(unique, k) ==> known(gathered(unique, count, images, n).0, k),
        forall|i: int| 0 <= i < n ==> known(gathered(unique, count, images, n).0, #[trigger] images[i]),
    decreases n,
{
    if n > 0 {
        lemma_gathered(unique, count, images, n - 1);
        let (u, c) = gathered(unique, count, images, n - 1);
        let (v, d) = gathered(unique, count, images, n);
        let k = images[n - 1];
        assert(0 <= patches(k));
        assert(k.same_pixels(k));
        assert forall|x: Key| #[trigger] known(u, x) implies known(v, x) by {
            let i = choose|i: int| 0 <= i < u.len() && x.same_pixels(#[trigger] u[i]);
            assert(v[i] == u[i]);
        }
        if !known(u, k) {
            assert(v[u.len() as int] == k);
            assert(known(v, k));
        }
        assert(known(unique, k) ==> known(u, k));
    }
}

/// Gather a prompt's images into a wave.
fn gather(unique: &mut Vec<ImageKey>, count: u128, images: &Vec<ImageKey>) -> (r: u128)
    requires
        all_wf(old(unique)@),
        all_wf(images@),
        modest(keys(old(unique)@)),
        modest(keys(images@)),
        count + images.len() * 0x3_ffff_ffc0 <= u128::MAX,
    ensures
        (keys(final(unique)@), r as int) == gathered(
            keys(old(unique)@),
            count as int,
            keys(images@),
            images.len() as int,
        ),
        all_wf(final(unique)@),
        modest(keys(final(unique)@)),
{
    let ghost start = keys(unique@);
    let ghost all = keys(images@);
    let mut n: u128 = count;
    let mut i: usize = 0;
    while i < images.len()
        invariant
            i <= images.len(),
            all == keys(images@),
            modest(all),
            modest(keys(unique@)),
            all_wf(unique@),
            all_wf(images@),
            (keys(unique@), n as int) == gathered(start, count as int, all, i as int),
            n <= count + i * 0x3_ffff_ffc0,
            count + images.len() * 0x3_ffff_ffc0 <= u128::MAX,
        decreases images.len() - i,
    {
        proof {
            assert(all[i as int] == images[i as int]@);
            assert(0 <= patches(all[i as int]) <= 0x3_ffff_ffc0);
        }
        if find_image(unique, &images[i]).is_none() {
            let ghost held = unique@;
            assert(images[i as int].nx * images[i as int].ny <= 0xffff_fff0);
            n = n + (images[i].nx * images[i].ny) as u128 * 4;
            let k = images[i].copy();
            assert(images[i as int].wf());
            unique.push(k);
            assert(keys(unique@) =~= keys(held).push(all[i as int]));
        }
        i = i + 1;
    }
    n
}

impl Images {
    pub open spec fn wf(&self, m: &Qwen35) -> bool {
        &&& forall|i: int| 0 <= i < self.encoding.len() ==> (#[trigger] self.encoding[i]).wf(m)
        &&& small_cache(self.cache@)
    }

    pub fn new() -> (r: Self)
        ensures
            !r.attached,
            r.encoding.len() == 0,
            r.cache.len() == 0,
            r.reused == 0,
    {
        Images { attached: false, encoding: Vec::new(), cache: Vec::new(), reused: 0 }
    }

    fn queue_has(&self, slot: usize) -> (r: bool)
        ensures
            r == queue_owns(waves(self.encoding@), slot),
    {
        let mut i: usize = 0;
        while i < self.encoding.len()
            invariant
                i <= self.encoding.len(),
                forall|j: int| 0 <= j < i ==> !wave_owns(#[trigger] waves(self.encoding@)[j], slot),
            decreases self.encoding.len() - i,
        {
            assert(waves(self.encoding@)[i as int] == self.encoding[i as int]@);
            if self.encoding[i].owns(slot) {
                return true;
            }
            i = i + 1;
        }
        false
    }

    /// A slot's prompt is withdrawn; waves without prompts go with it.
    pub fn abort_images(&mut self, m: &Qwen35, slot: usize)
        requires
            old(self).wf(m),
        ensures
            final(self).wf(m),
            final(self).attached == old(self).attached,
            final(self).cache == old(self).cache,
            final(self).reused == old(self).reused,
            waves(final(self).encoding@) == aborted(
                waves(old(self).encoding@),
                slot,
                old(self).encoding.len() as int,
            ),
    {
        let ghost all = waves(self.encoding@);
        let ghost total = self.encoding.len() as int;
        let mut i: usize = 0;
        assert(all.skip(0) =~= all);
        assert(all.take(0) =~= Seq::<Wave>::empty());
        let ghost mut seen: int = 0;
        while i < self.encoding.len()
            invariant
                i <= self.encoding.len(),
                self.wf(m),
                self.attached == old(self).attached,
                self.cache == old(self).cache,
                self.reused == old(self).reused,
                total == all.len(),
                0 <= seen <= total,
                self.encoding.len() - i == total - seen,
                waves(self.encoding@).take(i as int) == aborted(all, slot, seen),
                waves(self.encoding@).skip(i as int) == all.skip(seen),
            decreases self.encoding.len() - i,
        {
            let ghost before = self.encoding@;
            let ghost front = waves(before).take(i as int);
            let mut e = self.encoding.remove(i);
            proof {
                assert(waves(before)[i as int] == before[i as int]@);
                assert(waves(before).skip(i as int)[0] == all.skip(seen)[0]);
                assert(e@ == all[seen]);
                assert(waves(self.encoding@).take(i as int) =~= front);
                assert(waves(self.encoding@).skip(i as int) =~= all.skip(seen + 1)) by {
                    assert(waves(self.encoding@).skip(i as int) =~= waves(before).skip(i as int).skip(1));
                    assert(all.skip(seen).skip(1) =~= all.skip(seen + 1));
                }
            }
            let ghost rest = self.encoding@;
            e.drop_slot(slot, Ghost(*m));
            if e.requests.len() > 0 {
                let ghost w = e@;
                self.encoding.insert(i, e);
                proof {
                    assert(waves(self.encoding@).take(i + 1) =~= front.push(w));
                    assert(waves(self.encoding@).skip(i + 1) =~= waves(rest).skip(i as int));
                    assert forall|j: int| 0 <= j < self.encoding.len() implies (#[trigger] self.encoding[j]).wf(m) by {
                        if j < i {
                            assert(self.encoding[j] == before[j]);
                        } else if j > i {
                            assert(self.encoding[j] == before[j]);
                        }
                    }
                }
                i = i + 1;
            }
            proof {
                seen = seen + 1;
            }
        }
        assert(waves(self.encoding@).take(i as int) =~= waves(self.encoding@));
        assert(all.take(total) =~= all);
    }
}

/// Prompts of other slots.
pub open spec fn without(r: Seq<Asked>, slot: usize, n: int) -> Seq<Asked>
    decreases n,
{
    if n <= 0 {
        Seq::empty()
    } else if r[n - 1].slot == slot {
        without(r, slot, n - 1)
    } else {
        without(r, slot, n - 1).push(r[n - 1])
    }
}

/// The first `n` waves without a slot's prompts.
pub open spec fn aborted(queue: Seq<Wave>, slot: usize, n: int) -> Seq<Wave>
    decreases n,
{
    if n <= 0 {
        Seq::empty()
    } else {
        let before = aborted(queue, slot, n - 1);
        let w = queue[n - 1];
        let left = without(w.requests, slot, w.requests.len() as int);
        if left.len() == 0 {
            before
        } else {
            before.push(Wave { requests: left, ..w })
        }
    }
}

impl Encoding {
    fn drop_slot(&mut self, slot: usize, Ghost(m): Ghost<Qwen35>)
        requires
            old(self).wf(&m),
        ensures
            final(self).wf(&m),
            final(self)@ == (Wave {
                requests: without(old(self)@.requests, slot, old(self)@.requests.len() as int),
                ..old(self)@
            }),
    {
        let ghost all = asked(self.requests@);
        let ghost total = all.len() as int;
        let mut i: usize = 0;
        let ghost mut seen: int = 0;
        assert(all.skip(0) =~= all);
        assert(all.take(0) =~= Seq::<Asked>::empty());
        while i < self.requests.len()
            invariant
                i <= self.requests.len(),
                self.wf(&m),
                self.unique == old(self).unique,
                self.outputs == old(self).outputs,
                self.missing == old(self).missing,
                self.in_flight == old(self).in_flight,
                self.job == old(self).job,
                total == all.len(),
                0 <= seen <= total,
                self.requests.len() - i == total - seen,
                asked(self.requests@).take(i as int) == without(all, slot, seen),
                asked(self.requests@).skip(i as int) == all.skip(seen),
            decreases self.requests.len() - i,
        {
            let ghost before = self.requests@;
            let ghost front = asked(before).take(i as int);
            proof {
                assert(asked(before)[i as int] == before[i as int]@);
                assert(asked(before).skip(i as int)[0] == all.skip(seen)[0]);
            }
            if self.requests[i].slot == slot {
                let _ = self.requests.remove(i);
                proof {
                    assert(asked(self.requests@).take(i as int) =~= front);
                    assert(asked(self.requests@).skip(i as int) =~= asked(before).skip(i as int).skip(1));
                    assert(all.skip(seen).skip(1) =~= all.skip(seen + 1));
                    assert forall|j: int| 0 <= j < self.requests.len() implies (#[trigger] self.requests[j]).wf(&m) by {
                        if j < i {
                            assert(self.requests[j] == before[j]);
                        } else {
                            assert(self.requests[j] == before[j + 1]);
                        }
                    }
                    assert forall|a: int, b: int|
                        0 <= a < self.requests.len() && 0 <= b < self.requests[a].layout.keys.len() implies known(
                        keys(self.unique@),
                        #[trigger] self.requests[a].layout.keys[b]@,
                    ) by {
                        if a < i {
                            assert(self.requests[a] == before[a]);
                        } else {
                            assert(self.requests[a] == before[a + 1]);
                        }
                    }
                }
            } else {
                proof {
                    assert(asked(before).take(i + 1) =~= front.push(before[i as int]@));
                    assert(asked(before).skip(i + 1) =~= asked(before).skip(i as int).skip(1));
                    assert(all.skip(seen).skip(1) =~= all.skip(seen + 1));
                }
                i = i + 1;
            }
            proof {
                seen = seen + 1;
            }
        }
        assert(asked(self.requests@).take(i as int) =~= asked(self.requests@));
    }
}

impl Qwen35 {
    /// Images that were served without the tower.
    pub fn image_cache_reuses(&self, images: &Images) -> (r: u64)
        ensures
            r == images.reused,
    {
        images.reused
    }

    /// Admit image prompts into the tower's queue.
    pub fn admit_images(&self, images: &mut Images, items: Vec<(usize, Vec<Chunk>)>) -> (r: Vec<(usize, Outcome)>)
        requires
            self.wf(),
            old(images).wf(self),
            forall|i: int| 0 <= i < items.len() ==> chunks_sized((#[trigger] items[i]).1@),
        ensures
            final(images).wf(self),
            final(images).attached == old(images).attached,
            final(images).cache == old(images).cache,
            final(images).reused == old(images).reused,
            ({
                let a = self.admission(
                    old(images).attached,
                    waves(old(images).encoding@),
                    items@,
                    items.len() as int,
                );
                &&& r@ == a.out
                &&& waves(final(images).encoding@) == closed(a.queue, a.wave)
            }),
    {
        let ghost all = items@;
        let ghost queue = waves(images.encoding@);
        let attached = images.attached;
        let total: usize = items.len();
        let mut rest = items;
        let mut out: Vec<(usize, Outcome)> = Vec::new();
        let mut wave = Encoding::new();
        let mut count: u128 = 0;
        let mut k: usize = 0;
        assert(all.skip(0) =~= all);
        while k < total
            invariant
                k <= total == all.len(),
                all == items@,
                rest@ == all.skip(k as int),
                self.wf(),
                images.wf(self),
                images.attached == attached,
                attached == old(images).attached,
                images.cache == old(images).cache,
                images.reused == old(images).reused,
                forall|i: int| 0 <= i < all.len() ==> chunks_sized((#[trigger] all[i]).1@),
                wave.wf(self),
                wave.outputs.len() == 0,
                wave.requests.len() == 0 ==> count == 0,
                modest(keys(wave.unique@)),
                count <= 0x1_0000 + 0xffff_ffff_ffff_ffff * 0x3_ffff_ffc0,
                queue == waves(old(images).encoding@),
                ({
                    let a = self.admission(attached, queue, all, k as int);
                    &&& out@ == a.out
                    &&& waves(images.encoding@) == a.queue
                    &&& wave@ == a.wave
                    &&& count == a.count
                }),
            decreases total - k,
        {
            let ghost a = self.admission(attached, queue, all, k as int);
            let (slot, chunks) = rest.remove(0);
            proof {
                assert((slot, chunks) == all[k as int]);
                assert(rest@ =~= all.skip(k + 1));
                assert(self.admission(attached, queue, all, k + 1) == self.admission_step(attached, a, slot, chunks@));
            }
            if self.uncommitted {
                out.push((slot, Outcome::Failed(MetalError::Model(Fault::Uncommitted))));
            } else if slot >= self.slots.len() || self.has_pending(slot) || images.queue_has(slot)
                || wave.owns(slot) {
                out.push((slot, Outcome::Failed(MetalError::Model(Fault::Busy))));
            } else if !attached {
                out.push((slot, Outcome::Failed(MetalError::Model(Fault::Companion))));
            } else {
                match layout(chunks, self.graph.vocab, self.graph.context) {
                    Err(e) => {
                        out.push((slot, Outcome::Failed(e)));
                    },
                    Ok(l) => {
                        proof {
                            lemma_modest(l);
                            lemma_image_rows(chunks@, self.graph.vocab, self.graph.context);
                        }
                        let more: u128 = count_added(&wave.unique, &l.keys);
                        if wave.requests.len() > 0 && count + more > WAVE_PATCHES {
                            let mut full = Encoding::new();
                            std::mem::swap(&mut wave, &mut full);
                            let ghost before = images.encoding@;
                            let ghost w = full@;
                            images.encoding.push(full);
                            proof {
                                assert(waves(images.encoding@) =~= waves(before).push(w));
                                assert forall|j: int| 0 <= j < images.encoding.len() implies (
                                #[trigger] images.encoding[j]).wf(self) by {
                                    if j < before.len() {
                                        assert(images.encoding[j] == before[j]);
                                    }
                                }
                                assert(keys(wave.unique@) =~= Seq::<Key>::empty());
                            }
                            count = 0;
                        }
                        let ghost start = keys(wave.unique@);
                        let ghost held = wave@;
                        let ghost old_wave = wave;
                        let ghost from = count;
                        proof {
                            lemma_gathered(start, count as int, keys(l.keys@), l.keys.len() as int);
                            lemma_added(start, keys(l.keys@), l.keys.len() as int);
                        }
                        count = gather(&mut wave.unique, count, &l.keys);
                        let ghost view = laid(l);
                        assert(l.images@ =~= Seq::<Buffer>::empty());
                        wave.requests.push(Request { slot, layout: l });
                        proof {
                            assert(wave.requests@.drop_last() =~= old_wave.requests@);
                            assert(wave@.requests =~= held.requests.push(
                                Asked { slot, laid: view, images: Seq::empty() },
                            ));
                            self.lemma_joined(old_wave, wave, start, from as int, l);
                        }
                        out.push((slot, Outcome::Encoding));
                    },
                }
            }
            k = k + 1;
        }
        if wave.requests.len() > 0 {
            let ghost before = images.encoding@;
            let ghost w = wave@;
            images.encoding.push(wave);
            proof {
                assert(waves(images.encoding@) =~= waves(before).push(w));
                assert forall|j: int| 0 <= j < images.encoding.len() implies (#[trigger] images.encoding[j]).wf(
                    self,
                ) by {
                    if j < before.len() {
                        assert(images.encoding[j] == before[j]);
                    }
                }
            }
        }
        out
    }

    proof fn lemma_joined(&self, a: Encoding, b: Encoding, start: Seq<Key>, count: int, l: Layout)
        requires
            self.wf(),
            a.wf(self),
            a.outputs.len() == 0,
            start == keys(a.unique@),
            l.wf(),
            0 < l.ids.len() <= self.graph.context,
            modest(keys(l.keys@)),
            b.requests@.len() == a.requests@.len() + 1,
            b.requests@.drop_last() == a.requests@,
            b.requests@.last().layout == l,
            b.requests@.last().slot < self.slots.len(),
            keys(b.unique@) == gathered(start, count, keys(l.keys@), l.keys.len() as int).0,
            all_wf(b.unique@),
            modest(keys(b.unique@)),
            b.outputs == a.outputs,
            b.missing == a.missing,
            b.in_flight == a.in_flight,
            b.job == a.job,
        ensures
            b.wf(self),
    {
        lemma_gathered(start, count, keys(l.keys@), l.keys.len() as int);
        let n = a.requests.len() as int;
        assert forall|i: int| 0 <= i < b.unique.len() implies patches((#[trigger] b.unique[i])@) <= 0x3_ffff_ffc0 by {
            assert(keys(b.unique@)[i] == b.unique[i]@);
        }
        assert forall|i: int| 0 <= i < b.requests.len() implies (#[trigger] b.requests[i]).wf(self) by {
            if i < n {
                assert(b.requests@.drop_last()[i] == a.requests@[i]);
                assert(a.requests[i].wf(self));
                assert(b.requests[i] == a.requests[i]);
            } else {
                assert(b.requests[i] == b.requests@.last());
            }
        }
        assert forall|i: int, j: int|
            0 <= i < b.requests.len() && 0 <= j < b.requests[i].layout.keys.len() implies known(
            keys(b.unique@),
            #[trigger] b.requests[i].layout.keys[j]@,
        ) by {
            if i < n {
                assert(b.requests@.drop_last()[i] == a.requests[i]);
                assert(known(start, a.requests[i].layout.keys[j]@));
            } else {
                assert(keys(l.keys@)[j] == l.keys[j]@);
            }
        }
    }
}

proof fn lemma_added(unique: Seq<Key>, images: Seq<Key>, n: int)
    requires
        0 <= n <= images.len(),
        modest(images),
    ensures
        0 <= added(unique, images, n) <= n * 0x3_ffff_ffc0,
    decreases n,
{
    if n > 0 {
        lemma_added(unique, images, n - 1);
        assert(0 <= patches(images[n - 1]) <= 0x3_ffff_ffc0);
    }
}

/// A prompt with an image has rows.
proof fn lemma_image_rows(chunks: Seq<Chunk>, vocab: usize, context: usize)
    requires
        chunks_sized(chunks),
    ensures
        lay_prompt(chunks, vocab, context) matches Ok(l) ==> l.ids.len() > 0,
{
    lemma_some_rows(chunks, vocab, context, chunks.len() as int);
}

proof fn lemma_some_rows(chunks: Seq<Chunk>, vocab: usize, context: usize, n: int)
    requires
        chunks_sized(chunks),
        0 <= n <= chunks.len(),
    ensures
        crate::qwen35::layout::lay_chunks(chunks, n, vocab, context) matches Ok(l) ==> (l.keys.len() > 0 ==> l.ids.len()
            > 0),
    decreases n,
{
    if n > 0 {
        lemma_some_rows(chunks, vocab, context, n - 1);
        match chunks[n - 1] {
            Chunk::Image { rgb, w, h, hash, size: Some((tw, th)) } => {
                assert(chunk_grid(tw as int, th as int) >= 1) by {
                    assert(tw >= 32 && th >= 32);
                    let x = tw as int / 32;
                    let y = th as int / 32;
                    assert(x * y >= 1) by (nonlinear_arith)
                        requires
                            x >= 1,
                            y >= 1,
                    ;
                }
            },
            _ => {},
        }
    }
}

spec fn chunk_grid(w: int, h: int) -> int {
    (w / 32) * (h / 32)
}

} // verus!
