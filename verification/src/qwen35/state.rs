//! Slots, saved prefixes and the decoder that owns them.
use vstd::prelude::*;
use crate::program::Buffer;
use crate::qwen35::graph::{Graph, CHUNK, MAX_CONTEXT};
use crate::qwen35::image::{all_wf, cuts_image, keys, ImageKey, Key};

verus! {

/// A multimodal prompt: token rows, image rows and where each row stands.
#[derive(Debug)]
pub struct Layout {
    pub ids: Vec<u32>,
    pub keys: Vec<ImageKey>,
    pub positions: Vec<[u32; 4]>,
    pub limits: Vec<u32>,
    /// The encoding of each image, once there is one.
    pub images: Vec<Buffer>,
    pub final_position: u32,
}

impl Layout {
    /// One position and one limit per row; images inside the prompt; room for
    /// the positions of a whole context behind it.
    pub open spec fn wf(&self) -> bool {
        &&& self.positions.len() == self.ids.len()
        &&& self.limits.len() == self.ids.len()
        &&& self.ids.len() <= MAX_CONTEXT
        &&& self.final_position <= self.ids.len()
        &&& all_wf(self.keys@)
        &&& forall|i: int| 0 <= i < self.keys.len() ==> (#[trigger] self.keys[i])@.end() <= self.ids.len()
        &&& self.images.len() <= self.keys.len()
        &&& forall|i: int| 0 <= i < self.limits.len() ==> #[trigger] self.limits[i] <= MAX_CONTEXT
    }

    pub open spec fn limit_of(&self, row: int) -> u32 {
        if row < self.limits.len() { self.limits[row] } else { row as u32 }
    }

    pub open spec fn position_of(&self, row: int) -> Seq<u32> {
        if row < self.positions.len() {
            self.positions[row]@
        } else {
            Seq::new(4, |i: int| (self.final_position + (row - self.ids.len())) as u32)
        }
    }

    /// Whether a prefix of `cut` rows would end inside an image.
    pub fn inside_image(&self, cut: usize) -> (r: bool)
        requires
            all_wf(self.keys@),
        ensures
            r == cuts_image(keys(self.keys@), cut as int),
    {
        let mut i: usize = 0;
        while i < self.keys.len()
            invariant
                i <= self.keys.len(),
                all_wf(self.keys@),
                forall|j: int| 0 <= j < i ==> !(#[trigger] keys(self.keys@)[j]).inside(cut as int),
            decreases self.keys.len() - i,
        {
            assert(keys(self.keys@)[i as int] == self.keys[i as int]@);
            if self.keys[i].inside(cut) {
                return true;
            }
            i = i + 1;
        }
        false
    }

    /// The last row that `row` attends to. Rows behind the prompt attend up
    /// to themselves.
    pub fn limit(&self, row: usize) -> (r: u32)
        ensures
            r == self.limit_of(row as int),
    {
        if row < self.limits.len() {
            self.limits[row]
        } else {
            row as u32
        }
    }
}

/// One live sequence.
#[derive(Debug)]
pub struct Slot {
    pub cold_consulted: bool,
    /// Rows below this are prompt rows, however few are left: a cached suffix
    /// keeps the prompt's arithmetic.
    pub prefill_end: usize,
    pub blocks: Vec<u32>,
    pub history: Vec<u32>,
    pub reused: usize,
    /// Prefix lengths worth saving.
    pub cuts: Vec<usize>,
    pub mm: Option<Layout>,
}

impl Slot {
    pub open spec fn wf(&self, g: &Graph) -> bool {
        &&& self.history.len() <= g.context
        &&& self.blocks.len() <= g.page_stride
        &&& self.cuts.len() <= 2
        &&& self.mm matches Some(m) ==> m.wf()
    }

    pub open spec fn image_keys(&self) -> Seq<Key> {
        match self.mm {
            Some(m) => keys(m.keys@),
            None => Seq::empty(),
        }
    }

    pub fn new() -> (r: Self)
        ensures
            !r.cold_consulted,
            r.prefill_end == 0,
            r.blocks@ == Seq::<u32>::empty(),
            r.history@ == Seq::<u32>::empty(),
            r.reused == 0,
            r.cuts@ == Seq::<usize>::empty(),
            r.mm is None,
    {
        Slot {
            cold_consulted: false,
            prefill_end: 0,
            blocks: Vec::new(),
            history: Vec::new(),
            reused: 0,
            cuts: Vec::new(),
            mm: None,
        }
    }
}

/// A saved prefix, as the contracts see it.
pub struct Saved {
    pub reserved: bool,
    pub blocks: Seq<u32>,
    pub history: Seq<u32>,
    pub touched: u64,
    pub images: Seq<Key>,
}

/// A saved prefix with its pages and recurrent state. A reserved one belongs
/// to a plan or a restore that has not been published.
#[derive(Debug)]
pub struct Checkpoint {
    pub reserved: bool,
    pub blocks: Vec<u32>,
    pub history: Vec<u32>,
    pub touched: u64,
    pub images: Vec<ImageKey>,
}

impl View for Checkpoint {
    type V = Saved;

    open spec fn view(&self) -> Saved {
        Saved {
            reserved: self.reserved,
            blocks: self.blocks@,
            history: self.history@,
            touched: self.touched,
            images: keys(self.images@),
        }
    }
}

pub open spec fn saved(cache: Seq<Checkpoint>) -> Seq<Saved> {
    cache.map_values(|c: Checkpoint| c@)
}

impl Checkpoint {
    pub fn empty(reserved: bool, touched: u64) -> (r: Self)
        ensures
            r@ == (Saved {
                reserved,
                blocks: Seq::empty(),
                history: Seq::empty(),
                touched,
                images: Seq::empty(),
            }),
            all_wf(r.images@),
    {
        let r = Checkpoint {
            reserved,
            blocks: Vec::new(),
            history: Vec::new(),
            touched,
            images: Vec::new(),
        };
        assert(keys(r.images@) =~= Seq::empty());
        r
    }
}

/// A prompt in progress: rows from `offset` on are still to run.
#[derive(Debug)]
pub struct Pending {
    pub slot: usize,
    pub tokens: Vec<u32>,
    pub offset: usize,
    pub work: usize,
}

#[derive(Debug)]
pub struct Qwen35 {
    pub graph: Graph,
    pub slots: Vec<Slot>,
    pub cache: Vec<Checkpoint>,
    pub clock: u64,
    pub pending: Vec<Pending>,
    /// A verification pass awaits its verdict.
    pub uncommitted: bool,
}

impl Qwen35 {
    pub open spec fn wf(&self) -> bool {
        &&& self.graph.wf()
        &&& 0 < self.slots.len() <= CHUNK
        &&& self.cache.len() == 2 * self.slots.len()
        &&& self.graph.state_slots == 3 * self.slots.len()
        &&& forall|i: int| 0 <= i < self.slots.len() ==> (#[trigger] self.slots[i]).wf(&self.graph)
        &&& forall|i: int| 0 <= i < self.cache.len() ==> all_wf((#[trigger] self.cache[i]).images@)
        &&& forall|i: int|
            0 <= i < self.cache.len() ==> (#[trigger] self.cache[i]).history.len() <= self.graph.context
    }

    pub open spec fn checkpoints(&self) -> Seq<Saved> {
        saved(self.cache@)
    }
}

/// `a` goes before `b` when a destination is chosen: empty entries first,
/// then the least recently touched.
pub open spec fn goes_before(a: Saved, b: Saved) -> bool {
    let x = if a.history.len() == 0 { 0int } else { 1 };
    let y = if b.history.len() == 0 { 0int } else { 1 };
    x < y || (x == y && a.touched < b.touched)
}

/// The destination among the first `n` entries: the first unreserved one that
/// no other goes before.
pub open spec fn destination(cache: Seq<Saved>, n: int) -> Option<int>
    decreases n,
{
    if n <= 0 {
        None
    } else {
        match destination(cache, n - 1) {
            None => if cache[n - 1].reserved { None } else { Some(n - 1) },
            Some(i) => if !cache[n - 1].reserved && goes_before(cache[n - 1], cache[i]) {
                Some(n - 1)
            } else {
                Some(i)
            },
        }
    }
}

/// The entry that eviction frees among the first `n`: the first unreserved,
/// non-empty one that was touched least recently.
pub open spec fn victim(cache: Seq<Saved>, n: int) -> Option<int>
    decreases n,
{
    if n <= 0 {
        None
    } else {
        let c = cache[n - 1];
        match victim(cache, n - 1) {
            None => if c.reserved || c.history.len() == 0 { None } else { Some(n - 1) },
            Some(i) => if !c.reserved && c.history.len() > 0 && c.touched < cache[i].touched {
                Some(n - 1)
            } else {
                Some(i)
            },
        }
    }
}

/// A destination exists exactly where some entry is unreserved; it is itself
/// unreserved, nothing unreserved goes before it, and it is the first such.
pub proof fn destination_is_least(cache: Seq<Saved>, n: int)
    requires
        0 <= n <= cache.len(),
    ensures
        match destination(cache, n) {
            None => forall|j: int| 0 <= j < n ==> (#[trigger] cache[j]).reserved,
            Some(i) => {
                &&& 0 <= i < n
                &&& !cache[i].reserved
                &&& forall|j: int|
                    0 <= j < n && !(#[trigger] cache[j]).reserved ==> !goes_before(cache[j], cache[i])
                &&& forall|j: int|
                    0 <= j < i && !(#[trigger] cache[j]).reserved ==> goes_before(cache[i], cache[j])
            },
        },
    decreases n,
{
    if n > 0 {
        destination_is_least(cache, n - 1);
    }
}

/// Eviction frees the least recently touched saved prefix that nobody owns,
/// and fails only where there is none.
pub proof fn victim_is_least_recent(cache: Seq<Saved>, n: int)
    requires
        0 <= n <= cache.len(),
    ensures
        match victim(cache, n) {
            None => forall|j: int|
                0 <= j < n ==> (#[trigger] cache[j]).reserved || cache[j].history.len() == 0,
            Some(i) => {
                &&& 0 <= i < n
                &&& !cache[i].reserved
                &&& cache[i].history.len() > 0
                &&& forall|j: int|
                    0 <= j < n && !(#[trigger] cache[j]).reserved && cache[j].history.len() > 0
                        ==> cache[i].touched <= cache[j].touched
            },
        },
    decreases n,
{
    if n > 0 {
        victim_is_least_recent(cache, n - 1);
    }
}

pub fn choose_destination(cache: &Vec<Checkpoint>) -> (r: Option<usize>)
    ensures
        match r {
            Some(i) => destination(saved(cache@), cache.len() as int) == Some(i as int) && i < cache.len(),
            None => destination(saved(cache@), cache.len() as int) is None,
        },
{
    let mut best: Option<usize> = None;
    let mut n: usize = 0;
    while n < cache.len()
        invariant
            n <= cache.len(),
            match best {
                Some(i) => destination(saved(cache@), n as int) == Some(i as int) && i < n,
                None => destination(saved(cache@), n as int) is None,
            },
        decreases cache.len() - n,
    {
        assert(saved(cache@)[n as int] == cache[n as int]@);
        let c = &cache[n];
        if !c.reserved {
            match best {
                None => {
                    best = Some(n);
                },
                Some(i) => {
                    assert(saved(cache@)[i as int] == cache[i as int]@);
                    let b = &cache[i];
                    let x = c.history.len() == 0;
                    let y = b.history.len() == 0;
                    if (x && !y) || (x == y && c.touched < b.touched) {
                        best = Some(n);
                    }
                },
            }
        }
        n = n + 1;
    }
    best
}

fn choose_victim(cache: &Vec<Checkpoint>) -> (r: Option<usize>)
    ensures
        match r {
            Some(i) => victim(saved(cache@), cache.len() as int) == Some(i as int) && i < cache.len(),
            None => victim(saved(cache@), cache.len() as int) is None,
        },
{
    let mut best: Option<usize> = None;
    let mut n: usize = 0;
    while n < cache.len()
        invariant
            n <= cache.len(),
            match best {
                Some(i) => victim(saved(cache@), n as int) == Some(i as int) && i < n,
                None => victim(saved(cache@), n as int) is None,
            },
        decreases cache.len() - n,
    {
        assert(saved(cache@)[n as int] == cache[n as int]@);
        let c = &cache[n];
        if !c.reserved && c.history.len() > 0 {
            match best {
                None => {
                    best = Some(n);
                },
                Some(i) => {
                    assert(saved(cache@)[i as int] == cache[i as int]@);
                    if c.touched < cache[i].touched {
                        best = Some(n);
                    }
                },
            }
        }
        n = n + 1;
    }
    best
}

/// What an emptied entry leaves behind: where it stood, and what its pages
/// and state still hold.
#[derive(Debug)]
pub struct Released {
    pub index: usize,
    pub saved: Checkpoint,
}

pub open spec fn emptied(c: Saved, reserved: bool) -> Saved {
    Saved { reserved, blocks: Seq::empty(), history: Seq::empty(), touched: c.touched, images: Seq::empty() }
}

/// Empty entry `index` and hand out what it held, so that it can be spilled
/// and its pages freed.
pub fn release(cache: &mut Vec<Checkpoint>, index: usize, reserved: bool) -> (r: Released)
    requires
        index < old(cache).len(),
        all_wf(old(cache)[index as int].images@),
    ensures
        r.index == index,
        r.saved@ == old(cache)[index as int]@,
        all_wf(r.saved.images@),
        final(cache).len() == old(cache).len(),
        saved(final(cache)@) == saved(old(cache)@).update(
            index as int,
            emptied(old(cache)[index as int]@, reserved),
        ),
        forall|i: int|
            0 <= i < old(cache).len() && i != index ==> #[trigger] final(cache)[i] == old(cache)[i],
        all_wf(final(cache)[index as int].images@),
{
    let mut fresh = Checkpoint::empty(reserved, cache[index].touched);
    std::mem::swap(&mut cache[index], &mut fresh);
    proof {
        assert(saved(cache@) =~= saved(old(cache)@).update(
            index as int,
            emptied(old(cache)[index as int]@, reserved),
        ));
    }
    Released { index, saved: fresh }
}

impl Qwen35 {
    /// Free the least recently touched saved prefix that nobody owns. The
    /// caller spills what is handed out and frees its pages.
    pub fn evict_checkpoint(&mut self) -> (r: Option<Released>)
        requires
            old(self).wf(),
        ensures
            final(self).wf(),
            final(self).graph == old(self).graph,
            final(self).slots == old(self).slots,
            final(self).clock == old(self).clock,
            final(self).pending == old(self).pending,
            final(self).uncommitted == old(self).uncommitted,
            match victim(old(self).checkpoints(), old(self).cache.len() as int) {
                None => r is None && final(self).cache == old(self).cache,
                Some(i) => {
                    &&& r matches Some(out)
                    &&& out.index == i
                    &&& out.saved@ == old(self).checkpoints()[i]
                    &&& final(self).checkpoints() == old(self).checkpoints().update(
                        i,
                        emptied(old(self).checkpoints()[i], false),
                    )
                },
            },
    {
        match choose_victim(&self.cache) {
            None => None,
            Some(i) => {
                proof {
                    victim_is_least_recent(self.checkpoints(), self.cache.len() as int);
                    assert(self.checkpoints()[i as int] == self.cache[i as int]@);
                }
                let r = release(&mut self.cache, i, false);
                assert(self.cache[i as int].history@.len() == 0) by {
                    assert(self.checkpoints()[i as int] == self.cache[i as int]@);
                }
                Some(r)
            },
        }
    }
}

} // verus!
