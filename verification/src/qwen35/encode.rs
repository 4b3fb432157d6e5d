//! The tower's work on waves of images: the image cache, jobs of bounded size
//! and the prompts that they release.
use vstd::prelude::*;
use crate::arith::{ceil_div, div_ceil};
use crate::program::{kernel, list2, list3, Buffer, Program, Step};
use crate::qwen35::image::{keys, ImageKey, Key};
use crate::qwen35::state::Qwen35;
use crate::qwen35::waves::{
    patches, small_cache, waves, CachedImage, Encoding, Images, Wave, CACHED_BYTES, CACHED_IMAGES,
    WAVE_PATCHES,
};

verus! {

/// A copy of an encoding, so that neither side can lose it.
pub open spec fn copy_step(from: Buffer, to: Buffer) -> Step {
    kernel(
        "spec_copy"@,
        seq![from, to],
        seq![0u32, 0u32, (from.len as int / 4) as u32],
        (ceil_div(from.len as int / 4, 256), 1, 1),
        256,
    )
}

pub fn copy_image(cmd: &mut Program, image: Buffer, id: u32) -> (r: Buffer)
    requires
        image.len <= usize::MAX,
    ensures
        r == (Buffer { id, len: image.len }),
        final(cmd)@ == old(cmd)@.push(copy_step(image, r)),
{
    let r = Buffer { id, len: image.len };
    let words: usize = (image.len / 4) as usize;
    cmd.dispatch(
        "spec_copy",
        list2(image, r),
        list3(0, 0, words as u32),
        (div_ceil(words, 256), 1, 1),
        256,
    );
    r
}

/// A cached encoding, as the contracts see it.
pub struct Kept {
    pub key: Key,
    pub output: Buffer,
    pub touched: u64,
}

impl View for CachedImage {
    type V = Kept;

    open spec fn view(&self) -> Kept {
        Kept { key: self.key@, output: self.output, touched: self.touched }
    }
}

pub open spec fn kept(c: Seq<CachedImage>) -> Seq<Kept> {
    c.map_values(|x: CachedImage| x@)
}

/// The first cached encoding of these pixels from `i` on.
pub open spec fn cached_at(cache: Seq<Kept>, k: Key, i: int) -> Option<int>
    decreases cache.len() - i,
{
    if i >= cache.len() {
        None
    } else if k.same_pixels(cache[i].key) {
        Some(i)
    } else {
        cached_at(cache, k, i + 1)
    }
}

fn find_cached(cache: &Vec<CachedImage>, k: &ImageKey) -> (r: Option<usize>)
    ensures
        match r {
            Some(i) => i < cache.len() && cached_at(kept(cache@), k@, 0) == Some(i as int),
            None => cached_at(kept(cache@), k@, 0) is None,
        },
{
    let ghost all = kept(cache@);
    let mut i: usize = 0;
    while i < cache.len()
        invariant
            i <= cache.len(),
            all == kept(cache@),
            cached_at(all, k@, 0) == cached_at(all, k@, i as int),
        decreases cache.len() - i,
    {
        assert(all[i as int] == cache[i as int]@);
        if k.same_image(&cache[i].key) {
            return Some(i);
        }
        i = i + 1;
    }
    None
}

/// How far a look into the image cache has come.
pub struct Look {
    pub clock: int,
    pub cache: Seq<Kept>,
    pub outputs: Seq<Option<Buffer>>,
    pub missing: Seq<usize>,
    pub reused: int,
    pub steps: Seq<Step>,
    pub next: int,
}

/// The first `n` images: a cached encoding is touched and copied, any other
/// is missing.
pub open spec fn looked(s: Look, unique: Seq<Key>, n: int) -> Look
    decreases n,
{
    if n <= 0 {
        s
    } else {
        let a = looked(s, unique, n - 1);
        match cached_at(a.cache, unique[n - 1], 0) {
            None => Look {
                outputs: a.outputs.push(None),
                missing: a.missing.push((n - 1) as usize),
                ..a
            },
            Some(i) => {
                let from = a.cache[i].output;
                let to = Buffer { id: a.next as u32, len: from.len };
                Look {
                    clock: a.clock + 1,
                    cache: a.cache.update(i, Kept { touched: (a.clock + 1) as u64, ..a.cache[i] }),
                    outputs: a.outputs.push(Some(to)),
                    missing: a.missing,
                    reused: a.reused + 1,
                    steps: a.steps.push(copy_step(from, to)),
                    next: a.next + 1,
                }
            },
        }
    }
}

/// The leading images of a job: as many as stay within one wave's patches.
pub open spec fn fitting(unique: Seq<Key>, missing: Seq<usize>, n: int, count: int) -> int
    decreases missing.len() - n,
{
    if n >= missing.len() {
        n
    } else {
        let total = count + patches(unique[missing[n] as int]);
        if total <= WAVE_PATCHES {
            fitting(unique, missing, n + 1, total)
        } else {
            n
        }
    }
}

/// Bytes that a cache holds: encodings and pixels.
pub open spec fn cache_bytes(c: Seq<Kept>) -> int
    decreases c.len(),
{
    if c.len() == 0 {
        0
    } else {
        cache_bytes(c.drop_last()) + c.last().output.len + c.last().key.rgb.len()
    }
}

/// The least recently touched of the first `n` entries; the first of equals.
pub open spec fn oldest(c: Seq<Kept>, n: int) -> int
    decreases n,
{
    if n <= 1 {
        0
    } else {
        let before = oldest(c, n - 1);
        if c[n - 1].touched < c[before].touched { n - 1 } else { before }
    }
}

/// The entry that leaves takes the last one's place.
pub open spec fn swapped_out(c: Seq<Kept>, i: int) -> Seq<Kept> {
    Seq::new((c.len() - 1) as nat, |j: int| if j == i { c.last() } else { c[j] })
}

/// Room for `bytes` more: entries leave, oldest first, while the cache is
/// full by count or by bytes.
pub open spec fn made_room(c: Seq<Kept>, bytes: int) -> Seq<Kept>
    decreases c.len(),
{
    if c.len() > 0 && (c.len() >= CACHED_IMAGES || cache_bytes(c) + bytes > CACHED_BYTES) {
        made_room(swapped_out(c, oldest(c, c.len() as int)), bytes)
    } else {
        c
    }
}

/// Whatever is kept, the cache stays within its bounds: fewer than sixteen
/// entries before the next one, and never more bytes than it may hold.
pub proof fn made_room_is_room(c: Seq<Kept>, bytes: int)
    ensures
        ({
            let r = made_room(c, bytes);
            &&& r.len() == 0 || (r.len() < CACHED_IMAGES && cache_bytes(r) + bytes <= CACHED_BYTES)
            &&& r.len() <= c.len()
        }),
    decreases c.len(),
{
    if c.len() > 0 && (c.len() >= CACHED_IMAGES || cache_bytes(c) + bytes > CACHED_BYTES) {
        made_room_is_room(swapped_out(c, oldest(c, c.len() as int)), bytes);
    }
}

fn count_bytes(cache: &Vec<CachedImage>) -> (r: u128)
    requires
        cache.len() <= CACHED_IMAGES,
    ensures
        r == cache_bytes(kept(cache@)),
        r <= 16 * 0x1_ffff_ffff_ffff_fffe,
{
    let ghost all = kept(cache@);
    let mut n: u128 = 0;
    let mut i: usize = 0;
    assert(all.take(0) =~= Seq::<Kept>::empty());
    while i < cache.len()
        invariant
            i <= cache.len() <= 16,
            all == kept(cache@),
            n == cache_bytes(all.take(i as int)),
            n <= i * 0x1_ffff_ffff_ffff_fffe,
        decreases cache.len() - i,
    {
        proof {
            assert(all.take(i + 1).drop_last() =~= all.take(i as int));
            assert(all.take(i + 1).last() == cache[i as int]@);
        }
        n = n + cache[i].output.len as u128 + cache[i].key.rgb.len() as u128;
        i = i + 1;
    }
    assert(all.take(cache.len() as int) =~= all);
    n
}

fn find_oldest(cache: &Vec<CachedImage>) -> (r: usize)
    requires
        cache.len() > 0,
    ensures
        r == oldest(kept(cache@), cache.len() as int),
        r < cache.len(),
{
    let ghost all = kept(cache@);
    let mut best: usize = 0;
    let mut n: usize = 1;
    while n < cache.len()
        invariant
            1 <= n <= cache.len(),
            all == kept(cache@),
            best == oldest(all, n as int),
            best < n,
        decreases cache.len() - n,
    {
        assert(all[n as int] == cache[n as int]@);
        assert(all[best as int] == cache[best as int]@);
        if cache[n].touched < cache[best].touched {
            best = n;
        }
        n = n + 1;
    }
    best
}

fn make_space(cache: &mut Vec<CachedImage>, bytes: u128)
    requires
        bytes <= 0x1_ffff_ffff_ffff_fffe,
        small_cache(old(cache)@),
    ensures
        kept(final(cache)@) == made_room(kept(old(cache)@), bytes as int),
        small_cache(final(cache)@),
{
    let ghost start = kept(cache@);
    loop
        invariant
            bytes <= 0x1_ffff_ffff_ffff_fffe,
            small_cache(cache@),
            made_room(start, bytes as int) == made_room(kept(cache@), bytes as int),
        ensures
            kept(cache@) == made_room(start, bytes as int),
            small_cache(cache@),
        decreases cache.len(),
    {
        let ghost now = kept(cache@);
        let held: u128 = count_bytes(cache);
        if cache.len() == 0 || (cache.len() < CACHED_IMAGES && held + bytes <= CACHED_BYTES) {
            break;
        }
        let at: usize = find_oldest(cache);
        let ghost before = cache@;
        let _ = cache.swap_remove(at);
        proof {
            assert(kept(cache@) =~= swapped_out(now, at as int));
            assert forall|i: int| 0 <= i < cache.len() implies (#[trigger] cache[i]).output.len <= usize::MAX
                && cache[i].key.wf() by {
                if i == at {
                    assert(cache[i] == before[before.len() - 1]);
                } else {
                    assert(cache[i] == before[i]);
                }
            }
        }
    }
}

/// How far the results of a job have been taken in.
pub struct Take {
    pub clock: int,
    pub cache: Seq<Kept>,
    pub outputs: Seq<Option<Buffer>>,
    pub steps: Seq<Step>,
    pub next: int,
}

/// The first `n` results: each is cached where it fits, and belongs to its
/// image.
pub open spec fn taken(s: Take, unique: Seq<Key>, places: Seq<usize>, results: Seq<Buffer>, n: int) -> Take
    decreases n,
{
    if n <= 0 {
        s
    } else {
        let a = taken(s, unique, places, results, n - 1);
        let k = unique[places[n - 1] as int];
        let out = results[n - 1];
        let bytes = out.len + k.rgb.len() as int;
        let room = made_room(a.cache, bytes);
        let to = Buffer { id: a.next as u32, len: out.len };
        let fits = bytes <= CACHED_BYTES;
        Take {
            clock: if fits { a.clock + 1 } else { a.clock },
            cache: if fits {
                room.push(Kept { key: k, output: to, touched: (a.clock + 1) as u64 })
            } else {
                room
            },
            outputs: a.outputs.update(places[n - 1] as int, Some(out)),
            steps: if fits { a.steps.push(copy_step(out, to)) } else { a.steps },
            next: if fits { a.next + 1 } else { a.next },
        }
    }
}

/// What the tower is to do next.
#[derive(Clone, Copy, Debug, PartialEq, Eq, Structural)]
pub enum Action {
    Idle,
    /// Ask the colder tier for the prompts of the first wave, then look into
    /// the image cache.
    Consult,
    /// Look into the image cache.
    Look,
    /// Start a job on the missing images.
    Start,
    /// Run the job on.
    Work,
    /// Seat the prompts.
    Seat,
}

pub open spec fn action_of(queue: Seq<Wave>, tiered: bool) -> Action {
    if queue.len() == 0 {
        Action::Idle
    } else {
        let w = queue[0];
        if w.outputs.len() == 0 {
            if tiered && !w.job { Action::Consult } else { Action::Look }
        } else if !w.job && w.missing.len() > 0 {
            Action::Start
        } else if w.job {
            Action::Work
        } else {
            Action::Seat
        }
    }
}

impl Images {
    pub fn next_action(&self, tiered: bool) -> (r: Action)
        ensures
            r == action_of(waves(self.encoding@), tiered),
    {
        if self.encoding.len() == 0 {
            return Action::Idle;
        }
        assert(waves(self.encoding@)[0] == self.encoding[0]@);
        let w = &self.encoding[0];
        if w.outputs.len() == 0 {
            if tiered && !w.job {
                Action::Consult
            } else {
                Action::Look
            }
        } else if !w.job && w.missing.len() > 0 {
            Action::Start
        } else if w.job {
            Action::Work
        } else {
            Action::Seat
        }
    }

    /// Replace the first wave and leave the others.
    pub open spec fn first_becomes(before: Images, after: Images, w: Wave) -> bool {
        waves(after.encoding@) == waves(before.encoding@).update(0, w)
    }

    /// Start a job on the leading missing images. Their places are handed
    /// out.
    pub fn start_job(&mut self, m: &Qwen35) -> (r: Vec<usize>)
        requires
            old(self).wf(m),
            old(self).encoding.len() > 0,
            old(self).encoding[0].outputs.len() > 0,
            !old(self).encoding[0].job,
        ensures
            final(self).wf(m),
            final(self).attached == old(self).attached,
            final(self).cache == old(self).cache,
            final(self).reused == old(self).reused,
            ({
                let w = old(self).encoding[0]@;
                let n = fitting(w.unique, w.missing, 0, 0);
                &&& 0 <= n <= w.missing.len()
                &&& r@ == w.missing.take(n)
                &&& Self::first_becomes(
                    *old(self),
                    *final(self),
                    Wave {
                        missing: w.missing.skip(n),
                        in_flight: w.missing.take(n),
                        job: true,
                        ..w
                    },
                )
            }),
    {
        let ghost before = *self;
        let ghost w = self.encoding[0]@;
        assert(self.encoding[0].wf(m));
        let mut e = self.encoding.remove(0);
        let n: usize = e.job_size(m);
        let chosen = e.begin(m, n);
        let ghost v = e@;
        let ghost rest = self.encoding@;
        self.encoding.insert(0, e);
        proof {
            lemma_front(before.encoding@, self.encoding@, rest, v, m);
        }
        chosen
    }
}

pub proof fn lemma_front(before: Seq<Encoding>, now: Seq<Encoding>, rest: Seq<Encoding>, v: Wave, m: &Qwen35)
    requires
        before.len() > 0,
        rest == before.remove(0),
        now.len() == before.len(),
        now == rest.insert(0, now[0]),
        now[0]@ == v,
        now[0].wf(m),
        forall|i: int| 0 <= i < before.len() ==> (#[trigger] before[i]).wf(m),
    ensures
        waves(now) == waves(before).update(0, v),
        forall|i: int| 0 <= i < now.len() ==> (#[trigger] now[i]).wf(m),
{
    assert(waves(now) =~= waves(before).update(0, v));
    assert forall|i: int| 0 <= i < now.len() implies (#[trigger] now[i]).wf(m) by {
        if i > 0 {
            assert(now[i] == before[i]);
        }
    }
}

impl Encoding {
    fn job_size(&self, m: &Qwen35) -> (r: usize)
        requires
            self.wf(m),
        ensures
            r == fitting(self@.unique, self@.missing, 0, 0),
            r <= self.missing.len(),
    {
        let ghost u = keys(self.unique@);
        let mut count: u128 = 0;
        let mut n: usize = 0;
        while n < self.missing.len()
            invariant
                n <= self.missing.len(),
                self.wf(m),
                u == keys(self.unique@),
                count <= WAVE_PATCHES,
                fitting(u, self.missing@, 0, 0) == fitting(u, self.missing@, n as int, count as int),
            decreases self.missing.len() - n,
        {
            let i: usize = self.missing[n];
            assert(u[i as int] == self.unique[i as int]@);
            let k = &self.unique[i];
            assert(0 <= patches(k@) <= 0x3_ffff_ffc0) by {
                assert(k.nx * k.ny >= 0) by (nonlinear_arith);
            }
            assert(k.nx * k.ny <= 0xffff_fff0);
            let more: u128 = (k.nx * k.ny) as u128 * 4;
            if count + more > WAVE_PATCHES {
                return n;
            }
            count = count + more;
            n = n + 1;
        }
        n
    }

    fn begin(&mut self, m: &Qwen35, n: usize) -> (r: Vec<usize>)
        requires
            old(self).wf(m),
            old(self).outputs.len() > 0,
            !old(self).job,
            n <= old(self).missing.len(),
        ensures
            final(self).wf(m),
            r@ == old(self).missing@.take(n as int),
            final(self)@ == (Wave {
                missing: old(self).missing@.skip(n as int),
                in_flight: old(self).missing@.take(n as int),
                job: true,
                ..old(self)@
            }),
    {
        let ghost all = self.missing@;
        let mut chosen: Vec<usize> = Vec::new();
        let mut left: Vec<usize> = Vec::new();
        let mut i: usize = 0;
        while i < self.missing.len()
            invariant
                i <= self.missing.len(),
                n <= self.missing.len(),
                *self == *old(self),
                all == self.missing@,
                chosen@ == all.take(if i < n { i as int } else { n as int }),
                left@ == if i < n { Seq::empty() } else { all.subrange(n as int, i as int) },
            decreases self.missing.len() - i,
        {
            if i < n {
                chosen.push(self.missing[i]);
                assert(chosen@ =~= all.take(i + 1));
            } else {
                left.push(self.missing[i]);
                assert(left@ =~= all.subrange(n as int, i + 1));
            }
            i = i + 1;
            assert(n == i ==> left@ =~= all.subrange(n as int, i as int));
        }
        assert(left@ =~= all.skip(n as int));
        let r = copied(&chosen);
        proof {
            assert forall|j: int| 0 <= j < left.len() implies #[trigger] left[j] < self.unique.len() by {
                assert(left[j] == all[n + j]);
            }
            assert forall|j: int| 0 <= j < chosen.len() implies #[trigger] chosen[j] < self.unique.len() by {
                assert(chosen[j] == all[j]);
            }
            assert forall|i: int|
                0 <= i < self.outputs.len() && (#[trigger] self.outputs[i]) is None implies left@.contains(
                i as usize,
            ) || chosen@.contains(i as usize) by {
                let j = choose|j: int| 0 <= j < all.len() && all[j] == i as usize;
                if j < n {
                    assert(chosen[j] == i as usize);
                } else {
                    assert(left[j - n] == i as usize);
                }
            }
        }
        self.missing = left;
        self.in_flight = chosen;
        self.job = true;
        r
    }
}

fn copied(v: &Vec<usize>) -> (r: Vec<usize>)
    ensures
        r@ == v@,
{
    let mut r: Vec<usize> = Vec::new();
    let mut i: usize = 0;
    while i < v.len()
        invariant
            i <= v.len(),
            r@ == v@.take(i as int),
        decreases v.len() - i,
    {
        r.push(v[i]);
        assert(r@ =~= v@.take(i + 1));
        i = i + 1;
    }
    assert(r@ =~= v@);
    r
}

impl Qwen35 {
    /// Look the first wave's images up in the image cache. Allocations are
    /// numbered from `next`; the first free number is handed out.
    pub fn look_up_images(&mut self, images: &mut Images, cmd: &mut Program, next: u32) -> (r: u32)
        requires
            old(self).wf(),
            old(images).wf(old(self)),
            old(images).encoding.len() > 0,
            old(images).encoding[0].outputs.len() == 0,
            old(self).clock + old(images).encoding[0].unique.len() <= u64::MAX,
            old(images).reused + old(images).encoding[0].unique.len() <= u64::MAX,
            next + old(images).encoding[0].unique.len() <= u32::MAX,
        ensures
            final(self).wf(),
            final(images).wf(final(self)),
            final(self).graph == old(self).graph,
            final(self).slots == old(self).slots,
            final(self).cache == old(self).cache,
            final(self).pending == old(self).pending,
            final(self).uncommitted == old(self).uncommitted,
            final(images).attached == old(images).attached,
            ({
                let w = old(images).encoding[0]@;
                let a = looked(
                    Look {
                        clock: old(self).clock as int,
                        cache: kept(old(images).cache@),
                        outputs: Seq::empty(),
                        missing: Seq::empty(),
                        reused: old(images).reused as int,
                        steps: old(cmd)@,
                        next: next as int,
                    },
                    w.unique,
                    w.unique.len() as int,
                );
                &&& final(self).clock == a.clock
                &&& kept(final(images).cache@) == a.cache
                &&& final(images).reused == a.reused
                &&& final(cmd)@ == a.steps
                &&& r == a.next
                &&& Images::first_becomes(
                    *old(images),
                    *final(images),
                    Wave { outputs: a.outputs, missing: a.missing, ..w },
                )
            }),
    {
        let ghost before = *images;
        let ghost m = *self;
        let ghost w = images.encoding[0]@;
        assert(images.encoding[0].wf(self));
        let mut e = images.encoding.remove(0);
        let ghost rest = images.encoding@;
        let ghost start = Look {
            clock: self.clock as int,
            cache: kept(images.cache@),
            outputs: Seq::empty(),
            missing: Seq::empty(),
            reused: images.reused as int,
            steps: cmd@,
            next: next as int,
        };
        let ghost e0 = e;
        let mut id: u32 = next;
        let mut n: usize = 0;
        assert(e.outputs@ =~= Seq::<Option<Buffer>>::empty());
        assert(e.missing@ =~= Seq::<usize>::empty());
        while n < e.unique.len()
            invariant
                n <= e.unique.len(),
                e.unique == e0.unique,
                e.requests == e0.requests,
                e.in_flight == e0.in_flight,
                e.job == e0.job,
                e.outputs.len() == n,
                w.unique == keys(e.unique@),
                images.encoding@ == rest,
                images.attached == before.attached,
                small_cache(images.cache@),
                self.clock <= m.clock + n,
                images.reused <= before.reused + n,
                id <= next + n,
                m.clock + e.unique.len() <= u64::MAX,
                before.reused + e.unique.len() <= u64::MAX,
                next + e.unique.len() <= u32::MAX,
                self.graph == m.graph,
                self.slots == m.slots,
                self.cache == m.cache,
                self.pending == m.pending,
                self.uncommitted == m.uncommitted,
                looked(start, w.unique, n as int) == (Look {
                    clock: self.clock as int,
                    cache: kept(images.cache@),
                    outputs: e.outputs@,
                    missing: e.missing@,
                    reused: images.reused as int,
                    steps: cmd@,
                    next: id as int,
                }),
                forall|i: int| 0 <= i < e.missing.len() ==> #[trigger] e.missing[i] < n,
                forall|i: int|
                    0 <= i < n ==> match #[trigger] e.outputs[i] {
                        Some(b) => b.len <= usize::MAX,
                        None => e.missing@.contains(i as usize),
                    },
            decreases e.unique.len() - n,
        {
            let ghost a = looked(start, w.unique, n as int);
            let ghost missing = e.missing@;
            let ghost outputs = e.outputs@;
            assert(w.unique[n as int] == e.unique[n as int]@);
            match find_cached(&images.cache, &e.unique[n]) {
                Some(at) => {
                    let ghost held = images.cache@;
                    assert(a.cache[at as int] == held[at as int]@);
                    assert(held[at as int].output.len <= usize::MAX);
                    self.clock = self.clock + 1;
                    images.cache[at].touched = self.clock;
                    let copy = copy_image(cmd, images.cache[at].output, id);
                    id = id + 1;
                    e.outputs.push(Some(copy));
                    images.reused = images.reused + 1;
                    proof {
                        assert(kept(images.cache@) =~= a.cache.update(
                            at as int,
                            Kept { touched: self.clock, ..a.cache[at as int] },
                        ));
                        assert forall|i: int| 0 <= i < images.cache.len() implies (
                        #[trigger] images.cache[i]).output.len <= usize::MAX && images.cache[i].key.wf() by {
                            if i != at {
                                assert(images.cache[i] == held[i]);
                            } else {
                                assert(held[i].key.wf());
                            }
                        }
                    }
                },
                None => {
                    e.outputs.push(None);
                    e.missing.push(n);
                    proof {
                        assert(e.missing[missing.len() as int] == n);
                        assert forall|i: int|
                            0 <= i < n && (#[trigger] e.outputs[i]) is None implies e.missing@.contains(
                            i as usize,
                        ) by {
                            assert(outputs[i] == e.outputs[i]);
                            let j = choose|j: int| 0 <= j < missing.len() && missing[j] == i as usize;
                            assert(e.missing[j] == i as usize);
                        }
                    }
                },
            }
            proof {
                assert forall|i: int| 0 <= i < n + 1 implies match #[trigger] e.outputs[i] {
                    Some(b) => b.len <= usize::MAX,
                    None => e.missing@.contains(i as usize),
                } by {
                    if i < n {
                        assert(outputs[i] == e.outputs[i]);
                    }
                }
            }
            n = n + 1;
        }
        let ghost v = e@;
        assert(e.wf(self)) by {
            assert forall|i: int| 0 <= i < e.requests.len() implies (#[trigger] e.requests[i]).wf(self) by {
                assert(e0.requests[i].wf(&m));
            }
        }
        images.encoding.insert(0, e);
        proof {
            assert forall|i: int| 0 <= i < before.encoding.len() implies (#[trigger] before.encoding[i]).wf(self) by {
                lemma_same_slots(before.encoding[i], &m, self);
            }
            lemma_front(before.encoding@, images.encoding@, rest, v, self);
        }
        id
    }

    /// Take in what a job encoded, one result for each of its images. Says
    /// whether images are still missing.
    pub fn finish_job(&mut self, images: &mut Images, results: &Vec<Buffer>, cmd: &mut Program, next: u32) -> (r: (
        u32,
        bool,
    ))
        requires
            old(self).wf(),
            old(images).wf(old(self)),
            old(images).encoding.len() > 0,
            old(images).encoding[0].job,
            results.len() == old(images).encoding[0].in_flight.len(),
            forall|i: int| 0 <= i < results.len() ==> (#[trigger] results[i]).len <= usize::MAX,
            old(self).clock + results.len() <= u64::MAX,
            next + results.len() <= u32::MAX,
        ensures
            final(self).wf(),
            final(images).wf(final(self)),
            final(self).graph == old(self).graph,
            final(self).slots == old(self).slots,
            final(self).cache == old(self).cache,
            final(self).pending == old(self).pending,
            final(self).uncommitted == old(self).uncommitted,
            final(images).attached == old(images).attached,
            final(images).reused == old(images).reused,
            ({
                let w = old(images).encoding[0]@;
                let a = taken(
                    Take {
                        clock: old(self).clock as int,
                        cache: kept(old(images).cache@),
                        outputs: w.outputs,
                        steps: old(cmd)@,
                        next: next as int,
                    },
                    w.unique,
                    w.in_flight,
                    results@,
                    results.len() as int,
                );
                &&& final(self).clock == a.clock
                &&& kept(final(images).cache@) == a.cache
                &&& final(cmd)@ == a.steps
                &&& r.0 == a.next
                &&& r.1 == (w.missing.len() > 0)
                &&& Images::first_becomes(
                    *old(images),
                    *final(images),
                    Wave { outputs: a.outputs, in_flight: Seq::empty(), job: false, ..w },
                )
            }),
    {
        let ghost before = *images;
        let ghost m = *self;
        let ghost w = images.encoding[0]@;
        assert(images.encoding[0].wf(self));
        let mut e = images.encoding.remove(0);
        let ghost rest = images.encoding@;
        let ghost e0 = e;
        let ghost start = Take {
            clock: self.clock as int,
            cache: kept(images.cache@),
            outputs: e.outputs@,
            steps: cmd@,
            next: next as int,
        };
        let mut id: u32 = next;
        let mut n: usize = 0;
        while n < results.len()
            invariant
                n <= results.len() == e.in_flight.len(),
                e0.wf(&m),
                e0.job,
                e.unique == e0.unique,
                e.requests == e0.requests,
                e.in_flight == e0.in_flight,
                e.missing == e0.missing,
                e.outputs.len() == e0.outputs.len() == e0.unique.len(),
                w == e0@,
                images.encoding@ == rest,
                images.attached == before.attached,
                images.reused == before.reused,
                small_cache(images.cache@),
                self.clock <= m.clock + n,
                id <= next + n,
                m.clock + results.len() <= u64::MAX,
                next + results.len() <= u32::MAX,
                forall|i: int| 0 <= i < results.len() ==> (#[trigger] results[i]).len <= usize::MAX,
                self.graph == m.graph,
                self.slots == m.slots,
                self.cache == m.cache,
                self.pending == m.pending,
                self.uncommitted == m.uncommitted,
                taken(start, w.unique, w.in_flight, results@, n as int) == (Take {
                    clock: self.clock as int,
                    cache: kept(images.cache@),
                    outputs: e.outputs@,
                    steps: cmd@,
                    next: id as int,
                }),
                forall|i: int|
                    0 <= i < e.outputs.len() ==> match #[trigger] e.outputs[i] {
                        Some(b) => b.len <= usize::MAX,
                        None => e0.outputs[i] is None && !e0.in_flight@.take(n as int).contains(i as usize),
                    },
            decreases results.len() - n,
        {
            let ghost a = taken(start, w.unique, w.in_flight, results@, n as int);
            let ghost outputs = e.outputs@;
            let i: usize = e.in_flight[n];
            assert(e0.in_flight[n as int] < e0.unique.len());
            let out = results[n];
            assert(w.unique[i as int] == e.unique[i as int]@);
            let size: u128 = out.len as u128 + e.unique[i].rgb.len() as u128;
            make_space(&mut images.cache, size);
            proof {
                made_room_is_room(a.cache, size as int);
                assert(images.cache.len() == kept(images.cache@).len());
            }
            if size <= CACHED_BYTES {
                self.clock = self.clock + 1;
                let copy = copy_image(cmd, out, id);
                id = id + 1;
                let ghost held = images.cache@;
                assert(e0.unique[i as int].wf());
                images.cache.push(
                    CachedImage { key: e.unique[i].copy(), output: copy, touched: self.clock },
                );
                proof {
                    assert(kept(images.cache@) =~= kept(held).push(
                        Kept { key: w.unique[i as int], output: copy, touched: self.clock },
                    ));
                    assert forall|j: int| 0 <= j < images.cache.len() implies (#[trigger] images.cache[j]).output.len
                        <= usize::MAX && images.cache[j].key.wf() by {
                        if j < held.len() {
                            assert(images.cache[j] == held[j]);
                        }
                    }
                }
            }
            e.outputs.set(i, Some(out));
            proof {
                assert forall|j: int| 0 <= j < e.outputs.len() implies match #[trigger] e.outputs[j] {
                    Some(b) => b.len <= usize::MAX,
                    None => e0.outputs[j] is None && !e0.in_flight@.take(n + 1).contains(j as usize),
                } by {
                    if j != i {
                        assert(e.outputs[j] == outputs[j]);
                        if e.outputs[j] is None {
                            let more = e0.in_flight@.take(n + 1);
                            assert(more =~= e0.in_flight@.take(n as int).push(i));
                            if more.contains(j as usize) {
                                let k = choose|k: int| 0 <= k < more.len() && more[k] == j as usize;
                                if k < n {
                                    assert(e0.in_flight@.take(n as int)[k] == j as usize);
                                }
                            }
                        }
                    }
                }
            }
            n = n + 1;
        }
        e.job = false;
        e.in_flight = Vec::new();
        let more = e.missing.len() > 0;
        let ghost v = e@;
        proof {
            assert(e.in_flight@ =~= Seq::<usize>::empty());
            assert(e0.in_flight@.take(n as int) =~= e0.in_flight@);
            assert(e.wf(self)) by {
                assert forall|i: int| 0 <= i < e.requests.len() implies (#[trigger] e.requests[i]).wf(self) by {
                    assert(e0.requests[i].wf(&m));
                }
                assert forall|i: int| 0 <= i < e.outputs.len() implies match #[trigger] e.outputs[i] {
                    Some(b) => b.len <= usize::MAX,
                    None => e.missing@.contains(i as usize) || e.in_flight@.contains(i as usize),
                } by {
                    assert(e0.outputs[i] is None ==> e0.missing@.contains(i as usize) || e0.in_flight@.contains(
                        i as usize,
                    ));
                }
            }
        }
        images.encoding.insert(0, e);
        proof {
            assert forall|i: int| 0 <= i < before.encoding.len() implies (#[trigger] before.encoding[i]).wf(self) by {
                lemma_same_slots(before.encoding[i], &m, self);
            }
            lemma_front(before.encoding@, images.encoding@, rest, v, self);
        }
        (id, more)
    }
}

/// A wave's soundness rests on the number of slots and the context alone.
pub proof fn lemma_same_slots(e: Encoding, a: &Qwen35, b: &Qwen35)
    requires
        e.wf(a),
        a.slots.len() == b.slots.len(),
        a.graph.context == b.graph.context,
    ensures
        e.wf(b),
{
    assert forall|i: int| 0 <= i < e.requests.len() implies (#[trigger] e.requests[i]).wf(b) by {
        assert(e.requests[i].wf(a));
    }
}

} // verus!
