//! Image prompts: layout, admission in waves and what the tower's results
//! become.
use vstd::prelude::*;
use crate::arith::{max, min};
use crate::error::{Fault, MetalError};
use crate::paddleocr::graph::{level, Image, IMAGE, VOCAB};
use crate::paddleocr::resize::{granted_sizes_are_whole_cells, resize, resized};
use crate::paddleocr::tower::MAX_PATCHES;
use crate::paddleocr::vision::{
    patches_are_whole_cells, patches_before, picture_wf, pictures, pictures_wf, Input, Job,
    Picture,
};

verus! {

/// One part of a prompt, as it is admitted.
#[derive(Debug)]
pub enum Chunk {
    Text(Vec<u32>),
    Image {
        rgb: Vec<u8>,
        w: usize,
        h: usize,
        /// Cells of the scaled size, for an image outside its pixel budget.
        cells: (u64, u64),
    },
    /// A new pixel budget; the last of each bound counts for every image.
    Pixels { min: Option<u64>, max: Option<u64> },
    /// A part that this family does not take.
    Other,
}

/// A prompt whose images wait for the tower. A span names an image of the
/// wave, its first row and its rows.
#[derive(Debug)]
pub struct Request {
    pub slot: usize,
    pub ids: Vec<u32>,
    pub positions: Vec<[u32; 4]>,
    pub next: u32,
    pub spans: Vec<(usize, usize, usize)>,
}

/// A wave of images and the prompts that wait for it.
#[derive(Debug)]
pub struct Encoding {
    pub requests: Vec<Request>,
    pub images: Vec<Input>,
    pub job: Option<Job>,
}

/// A request, as a value.
#[verifier::ext_equal]
pub struct Planned {
    pub slot: usize,
    pub ids: Seq<u32>,
    pub positions: Seq<Seq<u32>>,
    pub next: int,
    pub spans: Seq<(usize, usize, usize)>,
}

impl View for Request {
    type V = Planned;

    open spec fn view(&self) -> Planned {
        Planned {
            slot: self.slot,
            ids: self.ids@,
            positions: self.positions@.map_values(|p: [u32; 4]| p@),
            next: self.next as int,
            spans: self.spans@,
        }
    }
}

pub open spec fn requests(r: Seq<Request>) -> Seq<Planned> {
    r.map_values(|q: Request| q@)
}

/// Images that a wave will hand out.
pub open spec fn image_count(e: Encoding) -> int {
    match e.job {
        Some(j) => j.sizes.len() as int,
        None => e.images.len() as int,
    }
}

impl Request {
    pub open spec fn wf(&self, slots: int, context: int, images: int) -> bool {
        &&& self.slot < slots
        &&& self.ids.len() == self.positions.len()
        &&& 0 < self.ids.len() <= context
        &&& forall|i: int| 0 <= i < self.spans.len() ==> (#[trigger] self.spans[i]).0 < images
    }
}

impl Encoding {
    pub open spec fn wf(&self, slots: int, context: int) -> bool {
        &&& pictures_wf(pictures(self.images@))
        &&& patches_before(pictures(self.images@), self.images.len() as int) <= MAX_PATCHES
        &&& self.job matches Some(j) ==> j.wf() && j.sizes.len() <= MAX_PATCHES && self.images.len() == 0
        &&& forall|i: int|
            0 <= i < self.requests.len() ==> (#[trigger] self.requests[i]).wf(
                slots,
                context,
                image_count(*self),
            )
    }

    pub open spec fn owned(&self, slot: usize) -> bool {
        exists|i: int| 0 <= i < self.requests.len() && (#[trigger] self.requests[i]).slot == slot
    }

    pub fn owns(&self, slot: usize) -> (r: bool)
        ensures
            r == self.owned(slot),
    {
        let mut i: usize = 0;
        while i < self.requests.len()
            invariant
                i <= self.requests.len(),
                forall|j: int| 0 <= j < i ==> (#[trigger] self.requests[j]).slot != slot,
            decreases self.requests.len() - i,
        {
            if self.requests[i].slot == slot {
                return true;
            }
            i = i + 1;
        }
        false
    }

    /// Forget the prompt of a slot. Its images stay in the wave.
    pub fn abort(&mut self, slot: usize)
        ensures
            final(self).images == old(self).images,
            final(self).job == old(self).job,
            requests(final(self).requests@) == without(requests(old(self).requests@), slot),
            forall|slots: int, context: int|
                old(self).wf(slots, context) ==> #[trigger] final(self).wf(slots, context),
    {
        let ghost start = *self;
        let ghost whole = without(requests(self.requests@), slot);
        let mut i: usize = 0;
        assert(requests(self.requests@).skip(0) =~= requests(self.requests@));
        assert(requests(self.requests@).take(0) + whole =~= whole);
        while i < self.requests.len()
            invariant
                i <= self.requests.len(),
                self.images == start.images,
                self.job == start.job,
                forall|k: int|
                    0 <= k < self.requests.len() ==> start.requests@.contains(
                        #[trigger] self.requests[k],
                    ),
                requests(self.requests@).take(i as int) + without(
                    requests(self.requests@).skip(i as int),
                    slot,
                ) == whole,
            decreases self.requests.len() - i,
        {
            let ghost before = self.requests@;
            let ghost all = requests(before);
            proof {
                assert(all.skip(i as int)[0] == before[i as int]@);
                assert(all.skip(i as int).drop_first() =~= all.skip(i + 1));
            }
            if self.requests[i].slot == slot {
                let _ = self.requests.remove(i);
                proof {
                    let now = requests(self.requests@);
                    assert(now.take(i as int) =~= all.take(i as int));
                    assert(now.skip(i as int) =~= all.skip(i + 1));
                    assert forall|k: int| 0 <= k < self.requests.len() implies start.requests@.contains(
                        #[trigger] self.requests[k],
                    ) by {
                        let o = if k < i { k } else { k + 1 };
                        assert(self.requests[k] == before[o]);
                    }
                }
            } else {
                proof {
                    assert(all.take(i + 1) + without(all.skip(i + 1), slot) =~= all.take(i as int) + (
                    seq![all[i as int]] + without(all.skip(i + 1), slot)));
                }
                i = i + 1;
            }
        }
        proof {
            let now = requests(self.requests@);
            assert(now.skip(i as int) =~= Seq::<Planned>::empty());
            assert(now.take(i as int) + Seq::<Planned>::empty() =~= now);
            assert forall|slots: int, context: int| start.wf(slots, context) implies #[trigger] self.wf(
                slots,
                context,
            ) by {
                assert forall|k: int| 0 <= k < self.requests.len() implies (
                #[trigger] self.requests[k]).wf(slots, context, image_count(*self)) by {
                    assert(start.requests@.contains(self.requests[k]));
                    let o = choose|o: int|
                        0 <= o < start.requests.len() && start.requests[o] == self.requests[k];
                    assert(start.requests[o].wf(slots, context, image_count(start)));
                }
            }
        }
    }

    pub fn empty(&self) -> (r: bool)
        ensures
            r == (self.requests.len() == 0),
    {
        self.requests.len() == 0
    }
}

/// Requests of other slots, in order.
pub open spec fn without(s: Seq<Planned>, slot: usize) -> Seq<Planned>
    decreases s.len(),
{
    if s.len() == 0 {
        Seq::empty()
    } else {
        let rest = without(s.drop_first(), slot);
        if s[0].slot == slot { rest } else { seq![s[0]] + rest }
    }
}

/// The pixel budget that the first `n` parts leave.
pub open spec fn pixel_budget(chunks: Seq<Chunk>, n: int) -> (u64, u64)
    decreases n,
{
    if n <= 0 {
        (112896u64, 1003520u64)
    } else {
        let (lo, hi) = pixel_budget(chunks, n - 1);
        match chunks[n - 1] {
            Chunk::Pixels { min, max } => (
                match min {
                    Some(m) => m,
                    None => lo,
                },
                match max {
                    Some(m) => m,
                    None => hi,
                },
            ),
            _ => (lo, hi),
        }
    }
}

/// A prompt under construction: its rows and its images.
pub struct Laid {
    pub request: Planned,
    pub images: Seq<Picture>,
}

/// Text rows, one position each.
pub open spec fn with_text(l: Laid, ids: Seq<u32>) -> Laid {
    let r = l.request;
    Laid {
        request: Planned {
            ids: r.ids + ids,
            positions: r.positions + Seq::new(ids.len(), |i: int| level(r.next + i)),
            next: r.next + ids.len(),
            ..r
        },
        images: l.images,
    }
}

/// Coordinates of cell `i` of an image that is `nx` cells wide.
pub open spec fn cell_position(next: int, nx: int, i: int) -> Seq<u32> {
    seq![next as u32, (next + i / nx) as u32, (next + i % nx) as u32, 0u32]
}

/// Image rows: raster row and column behind a shared coordinate. The next
/// row stands one longer side further.
pub open spec fn with_image(l: Laid, p: Picture) -> Laid {
    let r = l.request;
    let nx = p.tw as int / 28;
    let ny = p.th as int / 28;
    let n = (nx * ny) as nat;
    Laid {
        request: Planned {
            slot: r.slot,
            ids: r.ids + Seq::new(n, |i: int| IMAGE),
            positions: r.positions + Seq::new(n, |i: int| cell_position(r.next, nx, i)),
            next: r.next + max(nx, ny),
            spans: r.spans.push((l.images.len() as usize, r.ids.len() as usize, n as usize)),
        },
        images: l.images.push(p),
    }
}

/// One part laid behind the others, or why it is refused.
pub open spec fn lay_chunk(l: Laid, chunk: Chunk, budget: (u64, u64), context: usize) -> Result<
    Laid,
    MetalError,
> {
    match chunk {
        Chunk::Text(ids) => if exists|i: int|
            0 <= i < ids.len() && (#[trigger] ids[i] >= VOCAB || ids[i] == IMAGE) {
            Err(MetalError::Model(Fault::PromptText))
        } else if l.request.ids.len() + ids.len() > context {
            Err(MetalError::Model(Fault::ImageContext))
        } else {
            Ok(with_text(l, ids@))
        },
        Chunk::Image { rgb, w, h, cells } => if rgb.len() != w * h * 3 {
            Err(MetalError::Model(Fault::PixelCount))
        } else {
            match resized(w as int, h as int, budget.0 as int, budget.1 as int, cells) {
                Err(e) => Err(e),
                Ok((tw, th)) => if l.request.ids.len() + (tw as int / 28) * (th as int / 28) > context {
                    Err(MetalError::Model(Fault::ImageContext))
                } else {
                    Ok(
                        with_image(
                            l,
                            Picture { rgb: rgb@, w, h, tw: tw as usize, th: th as usize },
                        ),
                    )
                },
            }
        },
        Chunk::Pixels { .. } => Ok(l),
        Chunk::Other => Err(MetalError::Model(Fault::Unsupported)),
    }
}

/// The first `n` parts.
pub open spec fn lay_chunks(slot: usize, chunks: Seq<Chunk>, context: usize, n: int) -> Result<
    Laid,
    MetalError,
>
    decreases n,
{
    if n <= 0 {
        Ok(
            Laid {
                request: Planned {
                    slot,
                    ids: Seq::empty(),
                    positions: Seq::empty(),
                    next: 0,
                    spans: Seq::empty(),
                },
                images: Seq::empty(),
            },
        )
    } else {
        match lay_chunks(slot, chunks, context, n - 1) {
            Err(e) => Err(e),
            Ok(l) => lay_chunk(
                l,
                chunks[n - 1],
                pixel_budget(chunks, chunks.len() as int),
                context,
            ),
        }
    }
}

/// A whole prompt. It must hold an image, and its images fit one wave.
pub open spec fn lay_prompt(slot: usize, chunks: Seq<Chunk>, context: usize) -> Result<Laid, MetalError> {
    match lay_chunks(slot, chunks, context, chunks.len() as int) {
        Err(e) => Err(e),
        Ok(l) => if l.images.len() == 0 || patches_before(l.images, l.images.len() as int)
            > MAX_PATCHES {
            Err(MetalError::Model(Fault::NoImage))
        } else {
            Ok(l)
        },
    }
}

pub fn pixel_limits(chunks: &Vec<Chunk>) -> (r: (u64, u64))
    ensures
        r == pixel_budget(chunks@, chunks.len() as int),
{
    let mut lo: u64 = 112896;
    let mut hi: u64 = 1003520;
    let mut i: usize = 0;
    while i < chunks.len()
        invariant
            i <= chunks.len(),
            (lo, hi) == pixel_budget(chunks@, i as int),
        decreases chunks.len() - i,
    {
        if let Chunk::Pixels { min, max } = &chunks[i] {
            if let Some(m) = min {
                lo = *m;
            }
            if let Some(m) = max {
                hi = *m;
            }
        }
        i = i + 1;
    }
    (lo, hi)
}

/// A request under construction.
pub open spec fn growing(r: Request, context: int, images: int) -> bool {
    &&& r.positions.len() == r.ids.len()
    &&& r.ids.len() <= context
    &&& r.next <= r.ids.len()
    &&& forall|i: int| 0 <= i < r.spans.len() ==> (#[trigger] r.spans[i]).0 < images
}

fn lay_text(r: &mut Request, ids: &Vec<u32>, context: usize, Ghost(images): Ghost<Seq<Picture>>)
    requires
        growing(*old(r), context as int, images.len() as int),
        old(r).ids.len() + ids.len() <= context <= 32768,
    ensures
        growing(*final(r), context as int, images.len() as int),
        final(r)@ == with_text(Laid { request: old(r)@, images }, ids@).request,
{
    let ghost start = r@;
    let mut i: usize = 0;
    proof {
        assert(start.ids + ids@.take(0) =~= start.ids);
        assert(start.positions + Seq::new(0, |i: int| level(start.next + i)) =~= start.positions);
        assert(ids@.take(ids.len() as int) =~= ids@);
    }
    while i < ids.len()
        invariant
            i <= ids.len(),
            growing(*r, context as int, images.len() as int),
            start.ids.len() + ids.len() <= context <= 32768,
            r.slot == start.slot,
            r.spans@ == start.spans,
            r.ids@ == start.ids + ids@.take(i as int),
            r@.positions == start.positions + Seq::new(i as nat, |i: int| level(start.next + i)),
            r.next == start.next + i,
        decreases ids.len() - i,
    {
        let ghost before = r@;
        let p: u32 = r.next;
        let place = [p, p, p, 0];
        r.ids.push(ids[i]);
        r.positions.push(place);
        r.next = p + 1;
        proof {
            assert(ids@.take(i + 1) =~= ids@.take(i as int).push(ids[i as int]));
            assert(r.ids@ =~= start.ids + ids@.take(i + 1));
            assert(place@ =~= level(start.next + i));
            assert(r@.positions =~= before.positions.push(place@));
            assert(r@.positions =~= start.positions + Seq::new(
                (i + 1) as nat,
                |i: int| level(start.next + i),
            ));
        }
        i = i + 1;
    }
}

fn lay_image(r: &mut Request, image: &Input, context: usize, Ghost(images): Ghost<Seq<Picture>>, index: usize)
    requires
        growing(*old(r), context as int, images.len() as int),
        picture_wf(image@),
        index == images.len(),
        old(r).ids.len() + (image.tw as int / 28) * (image.th as int / 28) <= context <= 32768,
    ensures
        growing(*final(r), context as int, images.len() as int + 1),
        final(r)@ == with_image(Laid { request: old(r)@, images }, image@).request,
{
    let ghost start = r@;
    let nx: usize = image.tw / 28;
    let ny: usize = image.th / 28;
    assert(nx * ny >= nx && nx * ny >= ny) by (nonlinear_arith)
        requires
            nx >= 1,
            ny >= 1,
    ;
    let n: usize = nx * ny;
    let p: u32 = r.next;
    let offset: usize = r.ids.len();
    let ghost places = Seq::new(n as nat, |i: int| cell_position(start.next, nx as int, i));
    let mut i: usize = 0;
    proof {
        assert(start.ids + Seq::new(0, |i: int| IMAGE) =~= start.ids);
        assert(start.positions + places.take(0) =~= start.positions);
        assert(places.take(n as int) =~= places);
    }
    while i < n
        invariant
            i <= n,
            growing(*r, context as int, images.len() as int),
            nx >= 1,
            p == start.next,
            p <= offset,
            offset == start.ids.len(),
            offset + n <= context <= 32768,
            r.slot == start.slot,
            r.spans@ == start.spans,
            r.next == p,
            places == Seq::new(n as nat, |i: int| cell_position(start.next, nx as int, i)),
            r.ids@ == start.ids + Seq::new(i as nat, |i: int| IMAGE),
            r@.positions == start.positions + places.take(i as int),
        decreases n - i,
    {
        let ghost before = r@;
        assert(i as int / nx as int <= i && i as int % nx as int <= i) by (nonlinear_arith)
            requires
                0 <= i,
                1 <= nx,
        ;
        let down: u32 = (i / nx) as u32;
        let across: u32 = (i % nx) as u32;
        let place = [p, p + down, p + across, 0];
        r.ids.push(IMAGE);
        r.positions.push(place);
        proof {
            assert(r.ids@ =~= start.ids + Seq::new((i + 1) as nat, |i: int| IMAGE));
            assert(place@ =~= places[i as int]);
            assert(r@.positions =~= before.positions.push(place@));
            assert(places.take(i + 1) =~= places.take(i as int).push(places[i as int]));
            assert(r@.positions =~= start.positions + places.take(i + 1));
        }
        i = i + 1;
    }
    let side: usize = if nx >= ny { nx } else { ny };
    r.next = p + side as u32;
    let ghost spans = r.spans@;
    r.spans.push((index, offset, n));
    proof {
        assert forall|k: int| 0 <= k < r.spans.len() implies (#[trigger] r.spans[k]).0 < images.len()
            + 1 by {
            if k < spans.len() {
                assert(r.spans[k] == spans[k]);
            }
        }
        assert(r@.spans =~= start.spans.push((index, offset, n)));
    }
}

pub proof fn lemma_same_patches(a: Seq<Picture>, b: Seq<Picture>, n: int)
    requires
        n <= a.len(),
        n <= b.len(),
        forall|i: int| 0 <= i < n ==> #[trigger] a[i] == b[i],
    ensures
        patches_before(a, n) == patches_before(b, n),
    decreases n,
{
    if n > 0 {
        lemma_same_patches(a, b, n - 1);
        assert(a[n - 1] == b[n - 1]);
    }
}

/// Every further image takes patches.
pub proof fn lemma_patch_floor(s: Seq<Picture>, n: int)
    requires
        0 <= n <= s.len(),
        pictures_wf(s),
    ensures
        4 * n <= patches_before(s, n),
    decreases n,
{
    if n > 0 {
        lemma_patch_floor(s, n - 1);
        patches_are_whole_cells(s[n - 1]);
    }
}

/// Lay out a prompt.
pub fn lay(slot: usize, chunks: Vec<Chunk>, context: usize) -> (r: Result<(Request, Vec<Input>), MetalError>)
    requires
        context <= 32768,
    ensures
        match lay_chunks(slot, chunks@, context, chunks.len() as int) {
            Err(e) => r == Err::<(Request, Vec<Input>), MetalError>(e),
            Ok(l) => {
                &&& r matches Ok((request, images))
                &&& request@ == l.request
                &&& pictures(images@) == l.images
                &&& growing(request, context as int, images.len() as int)
                &&& pictures_wf(l.images)
            },
        },
{
    let ghost all = chunks@;
    let total: usize = chunks.len();
    let (lo, hi) = pixel_limits(&chunks);
    let mut rest = chunks;
    let mut request = Request {
        slot,
        ids: Vec::new(),
        positions: Vec::new(),
        next: 0,
        spans: Vec::new(),
    };
    let mut images: Vec<Input> = Vec::new();
    let mut k: usize = 0;
    proof {
        assert(request@.positions =~= Seq::<Seq<u32>>::empty());
        assert(pictures(images@) =~= Seq::<Picture>::empty());
        assert(all.skip(0) =~= all);
    }
    while k < total
        invariant
            k <= total == all.len(),
            all == chunks@,
            rest@ == all.skip(k as int),
            context <= 32768,
            (lo, hi) == pixel_budget(all, all.len() as int),
            lay_chunks(slot, all, context, k as int) == Ok::<Laid, MetalError>(
                Laid { request: request@, images: pictures(images@) },
            ),
            growing(request, context as int, images.len() as int),
            pictures_wf(pictures(images@)),
        decreases total - k,
    {
        let ghost now = Laid { request: request@, images: pictures(images@) };
        let chunk = rest.remove(0);
        proof {
            assert(chunk == all[k as int]);
            assert(rest@ =~= all.skip(k + 1));
        }
        match chunk {
            Chunk::Text(ids) => {
                if !text_valid(&ids) {
                    proof {
                        lemma_fails(slot, all, context, k + 1, total as int);
                    }
                    return Err(MetalError::Model(Fault::PromptText));
                }
                if ids.len() > context || request.ids.len() + ids.len() > context {
                    proof {
                        lemma_fails(slot, all, context, k + 1, total as int);
                    }
                    return Err(MetalError::Model(Fault::ImageContext));
                }
                lay_text(&mut request, &ids, context, Ghost(pictures(images@)));
            },
            Chunk::Image { rgb, w, h, cells } => {
                let size = match w.checked_mul(h) {
                    Some(n) => n.checked_mul(3),
                    None => None,
                };
                let right = match size {
                    Some(n) => n == rgb.len(),
                    None => false,
                };
                if !right {
                    proof {
                        lemma_area(w as int, h as int);
                        lemma_fails(slot, all, context, k + 1, total as int);
                    }
                    return Err(MetalError::Model(Fault::PixelCount));
                }
                let (tw, th) = match resize(w as u64, h as u64, lo, hi, cells) {
                    Ok(t) => t,
                    Err(e) => {
                        proof {
                            lemma_fails(slot, all, context, k + 1, total as int);
                        }
                        return Err(e);
                    },
                };
                proof {
                    granted_sizes_are_whole_cells(w as int, h as int, lo as int, hi as int, cells);
                }
                let image = Input { rgb, w, h, tw: tw as usize, th: th as usize };
                proof {
                    assert(picture_wf(image@));
                    patches_are_whole_cells(image@);
                }
                let n: usize = image.tw / 28 * (image.th / 28);
                if request.ids.len() + n > context {
                    proof {
                        lemma_fails(slot, all, context, k + 1, total as int);
                    }
                    return Err(MetalError::Model(Fault::ImageContext));
                }
                let index: usize = images.len();
                lay_image(&mut request, &image, context, Ghost(pictures(images@)), index);
                let ghost view = image@;
                let ghost before = images@;
                images.push(image);
                assert(pictures(images@) =~= pictures(before).push(view));
            },
            Chunk::Pixels { .. } => {},
            Chunk::Other => {
                proof {
                    lemma_fails(slot, all, context, k + 1, total as int);
                }
                return Err(MetalError::Model(Fault::Unsupported));
            },
        }
        k = k + 1;
    }
    Ok((request, images))
}

proof fn lemma_area(w: int, h: int)
    requires
        0 <= w,
        0 <= h,
    ensures
        w * h <= w * h * 3,
{
    assert(0 <= w * h) by (nonlinear_arith)
        requires
            0 <= w,
            0 <= h,
    ;
}

/// A refused part refuses the prompt.
proof fn lemma_fails(slot: usize, chunks: Seq<Chunk>, context: usize, k: int, n: int)
    requires
        0 <= k <= n,
        lay_chunks(slot, chunks, context, k) is Err,
    ensures
        lay_chunks(slot, chunks, context, n) == lay_chunks(slot, chunks, context, k),
    decreases n - k,
{
    if k < n {
        lemma_fails(slot, chunks, context, k, n - 1);
    }
}

fn text_valid(ids: &Vec<u32>) -> (r: bool)
    ensures
        r == !(exists|i: int| 0 <= i < ids.len() && (#[trigger] ids[i] >= VOCAB || ids[i] == IMAGE)),
{
    let mut i: usize = 0;
    while i < ids.len()
        invariant
            i <= ids.len(),
            forall|j: int| 0 <= j < i ==> #[trigger] ids[j] < VOCAB && ids[j] != IMAGE,
        decreases ids.len() - i,
    {
        if ids[i] as usize >= VOCAB || ids[i] == IMAGE {
            return false;
        }
        i = i + 1;
    }
    true
}

} // verus!
