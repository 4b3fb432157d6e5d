//! Whole attention prefixes in a colder tier, for families without recurrent
//! state. A restore never lands in a live sequence: it fills private pages
//! that are published only once the copy has been fenced.
use vstd::prelude::*;
use crate::arith::{ceil_div, div_ceil, BLOCK_TOKENS};
use crate::error::{Fault, MetalError};
use crate::offload::{pages_fit, paged_spans, runs, Span};
use crate::program::Buffer;
use crate::tables::{first_tokens, has_start, starts_with};
use crate::tiering::{
    answer, election, find_hit, found, longest_hit, looked_up, no_decisions, observe, observed, resolved,
    undecided, Decisions, Loading, Observe,
};

verus! {

/// A page plane: its buffer and the bytes of one page in it.
#[derive(Clone, Copy, Debug, PartialEq, Eq, Structural)]
pub struct PagePlane {
    pub buffer: Buffer,
    pub bytes: u64,
}

/// A prefix on its way into private pages.
#[derive(Debug)]
pub struct Restore {
    pub blocks: Vec<u32>,
    pub tokens: Vec<u32>,
    pub bytes: u64,
    /// Whether it was read from disk.
    pub disk: bool,
}

#[derive(Debug)]
pub struct PagedTier {
    pub restoring: Option<Restore>,
    /// The cost of recomputing has been measured.
    pub measured: bool,
    pub decisions: Decisions,
    pub context: usize,
}

/// Bytes of one page over all planes.
pub open spec fn page_bytes(planes: Seq<PagePlane>) -> int
    decreases planes.len(),
{
    if planes.len() == 0 {
        0
    } else {
        page_bytes(planes.drop_last()) + planes.last().bytes
    }
}

/// Page runs of every plane, plane by plane.
pub open spec fn plane_runs(planes: Seq<PagePlane>, blocks: Seq<u32>) -> Seq<Span>
    decreases planes.len(),
{
    if planes.len() == 0 {
        Seq::empty()
    } else {
        plane_runs(planes.drop_last(), blocks) + runs(
            planes.last().buffer,
            blocks,
            planes.last().bytes as int,
        )
    }
}

/// Pages that can be addressed in every plane.
pub open spec fn planes_fit(planes: Seq<PagePlane>, blocks: Seq<u32>) -> bool {
    forall|i: int| 0 <= i < planes.len() ==> pages_fit(blocks, (#[trigger] planes[i]).bytes as int)
}

/// The spans of a prefix over all planes.
pub fn spans(planes: &Vec<PagePlane>, blocks: &Vec<u32>) -> (r: Vec<Span>)
    requires
        planes_fit(planes@, blocks@),
    ensures
        r@ == plane_runs(planes@, blocks@),
{
    let mut out: Vec<Span> = Vec::new();
    let mut i: usize = 0;
    assert(planes@.take(0) =~= Seq::<PagePlane>::empty());
    while i < planes.len()
        invariant
            i <= planes.len(),
            planes_fit(planes@, blocks@),
            out@ == plane_runs(planes@.take(i as int), blocks@),
        decreases planes.len() - i,
    {
        let p = planes[i];
        proof {
            assert(planes@.take(i + 1).drop_last() =~= planes@.take(i as int));
            assert(planes@.take(i + 1).last() == p);
            assert(pages_fit(blocks@, planes@[i as int].bytes as int));
        }
        let mut list = paged_spans(p.buffer, blocks, p.bytes);
        out.append(&mut list);
        i = i + 1;
    }
    assert(planes@.take(planes.len() as int) =~= planes@);
    out
}

proof fn lemma_page_bytes(planes: Seq<PagePlane>, n: int)
    requires
        0 <= n <= planes.len(),
    ensures
        0 <= page_bytes(planes.take(n)) <= page_bytes(planes),
    decreases planes.len(),
{
    if n < planes.len() {
        assert(planes.drop_last().take(n) =~= planes.take(n));
        lemma_page_bytes(planes.drop_last(), n);
    } else {
        assert(planes.take(n) =~= planes);
        if n > 0 {
            assert(planes.drop_last() =~= planes.drop_last().take(n - 1));
            lemma_page_bytes(planes.drop_last(), n - 1);
        }
    }
}

fn count_bytes(planes: &Vec<PagePlane>) -> (r: u64)
    requires
        page_bytes(planes@) <= u64::MAX,
    ensures
        r == page_bytes(planes@),
{
    let mut n: u64 = 0;
    let mut i: usize = 0;
    assert(planes@.take(0) =~= Seq::<PagePlane>::empty());
    while i < planes.len()
        invariant
            i <= planes.len(),
            page_bytes(planes@) <= u64::MAX,
            n == page_bytes(planes@.take(i as int)),
        decreases planes.len() - i,
    {
        proof {
            assert(planes@.take(i + 1).drop_last() =~= planes@.take(i as int));
            assert(planes@.take(i + 1).last() == planes[i as int]);
            lemma_page_bytes(planes@, i + 1);
        }
        n = n + planes[i].bytes;
        i = i + 1;
    }
    assert(planes@.take(planes.len() as int) =~= planes@);
    n
}

/// Prefix lengths worth keeping: whole pages, at least three, and not the
/// whole prompt.
pub open spec fn boundaries(len: int, pages: int) -> Seq<usize>
    decreases pages,
{
    if pages <= 0 {
        Seq::empty()
    } else {
        let before = boundaries(len, pages - 1);
        let n = pages * 16;
        if n >= 48 && n < len { before.push(n as usize) } else { before }
    }
}

/// The boundaries of a prompt, shortest first.
pub fn keys(tokens: &Vec<u32>) -> (r: Vec<usize>)
    ensures
        r@ == boundaries(tokens.len() as int, tokens.len() as int / 16),
{
    let mut out: Vec<usize> = Vec::new();
    let pages: usize = tokens.len() / BLOCK_TOKENS;
    let mut i: usize = 0;
    while i < pages
        invariant
            i <= pages,
            pages == tokens.len() as int / 16,
            out@ == boundaries(tokens.len() as int, i as int),
        decreases pages - i,
    {
        let n: usize = (i + 1) * BLOCK_TOKENS;
        if n >= 3 * BLOCK_TOKENS && n < tokens.len() {
            out.push(n);
        }
        i = i + 1;
    }
    out
}

/// Every boundary is whole pages, at least three of them, inside the prompt
/// and not its end; and every such length is a boundary.
pub proof fn boundaries_are_proper_prefixes(len: int, pages: int)
    requires
        0 <= pages,
        pages * 16 <= len <= usize::MAX,
    ensures
        forall|i: int|
            0 <= i < boundaries(len, pages).len() ==> {
                let n = #[trigger] boundaries(len, pages)[i];
                &&& n % 16 == 0
                &&& 48 <= n <= pages * 16
                &&& n < len
            },
        forall|k: int|
            3 <= k <= pages && k * 16 < len ==> boundaries(len, pages).contains(
                #[trigger] ((k * 16) as usize),
            ),
    decreases pages,
{
    if pages > 0 {
        boundaries_are_proper_prefixes(len, pages - 1);
        let before = boundaries(len, pages - 1);
        let now = boundaries(len, pages);
        assert forall|k: int| 3 <= k <= pages && k * 16 < len implies now.contains(
            #[trigger] ((k * 16) as usize),
        ) by {
            if k < pages {
                let j = choose|j: int| 0 <= j < before.len() && before[j] == (k * 16) as usize;
                assert(before.contains((k * 16) as usize));
                assert(now[j] == before[j]);
            } else {
                assert(now.last() == (k * 16) as usize);
            }
        }
    }
}

/// What to keep of a finished prompt: its longest boundary.
pub open spec fn kept_boundary(len: int) -> Option<usize> {
    let b = boundaries(len, len / 16);
    if b.len() == 0 { None } else { Some(b.last()) }
}

impl PagedTier {
    /// Whether the budget holds a transfer of three pages three times over,
    /// and the largest prefix that the tier can take.
    pub fn open(planes: &Vec<PagePlane>, ram_bytes: u64, context: usize) -> (r: Result<
        (Self, u64),
        MetalError,
    >)
        requires
            page_bytes(planes@) * 9 + 131072 <= u64::MAX,
            page_bytes(planes@) * 9 + 131072 <= ram_bytes ==> page_bytes(planes@) * ceil_div(
                context as int,
                16,
            ) <= u64::MAX,
        ensures
            if ram_bytes < page_bytes(planes@) * 9 + 131072 {
                r == Err::<(Self, u64), MetalError>(MetalError::Memory(Fault::Transfer))
            } else {
                &&& r matches Ok((t, largest))
                &&& largest == page_bytes(planes@) * ceil_div(context as int, 16)
                &&& t.restoring is None
                &&& !t.measured
                &&& t.context == context
                &&& t.decisions == undecided()
            },
    {
        proof {
            lemma_page_bytes(planes@, 0);
        }
        let page: u64 = count_bytes(planes);
        if ram_bytes < page * 9 + 131072 {
            return Err(MetalError::Memory(Fault::Transfer));
        }
        let pages: u64 = div_ceil(context, BLOCK_TOKENS) as u64;
        Ok(
            (
                PagedTier { restoring: None, measured: false, decisions: no_decisions(), context },
                page * pages,
            ),
        )
    }

    /// What to capture of a finished prompt: boundary and spans.
    pub fn capture_plan(&self, planes: &Vec<PagePlane>, tokens: &Vec<u32>, blocks: &Vec<u32>) -> (r: Option<
        (usize, Vec<Span>),
    >)
        requires
            kept_boundary(tokens.len() as int) matches Some(n) ==> n as int / 16 <= blocks.len()
                ==> planes_fit(planes@, blocks@.take(n as int / 16)),
        ensures
            match kept_boundary(tokens.len() as int) {
                Some(n) => if blocks.len() < n as int / 16 {
                    r is None
                } else {
                    &&& r matches Some((m, list))
                    &&& m == n
                    &&& list@ == plane_runs(planes@, blocks@.take(n as int / 16))
                },
                None => r is None,
            },
    {
        let bounds = keys(tokens);
        if bounds.len() == 0 {
            return None;
        }
        let n: usize = bounds[bounds.len() - 1];
        if blocks.len() < n / BLOCK_TOKENS {
            return None;
        }
        let held = first_tokens(blocks, n / BLOCK_TOKENS);
        Some((n, spans(planes, &held)))
    }

    /// A restore that a prompt can wait for.
    pub open spec fn serves(&self, tokens: Seq<u32>, resident: int) -> bool {
        &&& self.restoring matches Some(r)
        &&& r.tokens.len() > resident
        &&& r.tokens.len() < tokens.len()
        &&& starts_with(tokens, r.tokens@)
    }

    /// Look a prompt up. `kept` says of each boundary whether the tier holds
    /// it.
    pub fn lookup(&mut self, tokens: &Vec<u32>, resident: usize, kept: &Vec<bool>) -> (r: Loading)
        requires
            old(self).decisions.room(0),
            kept.len() == boundaries(tokens.len() as int, tokens.len() as int / 16).len(),
        ensures
            final(self).restoring == old(self).restoring,
            final(self).measured == old(self).measured,
            final(self).context == old(self).context,
            ({
                let d = old(self).decisions;
                let bounds = boundaries(tokens.len() as int, tokens.len() as int / 16);
                let hit = longest_hit(bounds, kept@, resident as int, bounds.len() as int);
                if tokens.len() == 0 || tokens.len() > old(self).context {
                    r == Loading::Recompute && final(self).decisions == d
                } else if old(self).serves(tokens@, resident as int) {
                    r == Loading::Wait && final(self).decisions == d
                } else {
                    r == found(hit) && final(self).decisions == looked_up(d, hit)
                }
            }),
    {
        if tokens.len() == 0 || tokens.len() > self.context {
            return Loading::Recompute;
        }
        let waits = match &self.restoring {
            Some(r) => r.tokens.len() > resident && r.tokens.len() < tokens.len() && has_start(
                tokens,
                &r.tokens,
            ),
            None => false,
        };
        if waits {
            return Loading::Wait;
        }
        let hit = find_hit(&keys(tokens), kept, resident);
        self.decisions.look_up(hit)
    }

    /// Decide on a hit, as `election` says.
    pub fn elect(&mut self, size: Option<(u64, bool)>, restore: bool, reading: bool, writes: bool) -> (r:
        Loading)
        requires
            old(self).decisions.room(0),
        ensures
            final(self).restoring == old(self).restoring,
            final(self).measured == old(self).measured,
            final(self).context == old(self).context,
            (final(self).decisions, r) == election(
                old(self).decisions,
                old(self).measured,
                size,
                restore,
                reading,
                writes,
            ),
    {
        self.decisions.elect(self.measured, size, restore, reading, writes)
    }

    /// After asking for the bytes, as `answer` says: the copy lane is taken
    /// while a restore is in flight.
    pub fn read(&mut self, pending: bool, there: bool, reading: bool) -> (r: Loading)
        requires
            old(self).decisions.room(0),
        ensures
            final(self).restoring == old(self).restoring,
            final(self).measured == old(self).measured,
            final(self).context == old(self).context,
            (final(self).decisions, r) == answer(
                old(self).decisions,
                pending,
                there,
                reading,
                old(self).restoring is Some,
            ),
    {
        let lane = self.restoring.is_some();
        self.decisions.read(pending, there, reading, lane)
    }

    /// The copy into private pages has been submitted.
    pub fn place(&mut self, tokens: &Vec<u32>, n: usize, blocks: Vec<u32>, bytes: u64, disk: bool)
        requires
            old(self).restoring is None,
            n <= tokens.len(),
        ensures
            final(self).measured == old(self).measured,
            final(self).context == old(self).context,
            final(self).decisions == old(self).decisions,
            final(self).restoring matches Some(r) && r.tokens@ == tokens@.take(n as int) && r.blocks
                == blocks && r.bytes == bytes && r.disk == disk,
    {
        self.restoring = Some(Restore { blocks, tokens: first_tokens(tokens, n), bytes, disk });
    }

    /// The copy has been fenced. Its pages are handed back, to publish only
    /// where it succeeded.
    pub fn pump(&mut self, ok: bool) -> (r: Option<(Restore, bool)>)
        requires
            old(self).decisions.room(
                match old(self).restoring {
                    Some(r) => r.bytes as int,
                    None => 0,
                },
            ),
        ensures
            final(self).restoring is None,
            final(self).measured == old(self).measured,
            final(self).context == old(self).context,
            match old(self).restoring {
                None => r is None && final(self).decisions == old(self).decisions,
                Some(was) => {
                    let d = old(self).decisions;
                    &&& r == Some((was, ok))
                    &&& final(self).decisions == if ok { resolved(d, was.bytes, was.disk) } else { d }
                },
            },
    {
        let mut was: Option<Restore> = None;
        std::mem::swap(&mut self.restoring, &mut was);
        match was {
            None => None,
            Some(r) => {
                if ok {
                    self.decisions.resolve(r.bytes, r.disk);
                }
                Some((r, ok))
            },
        }
    }

    /// A measured prompt: whether it seeds the cost model, or updates it.
    /// The time is the bit pattern of a double-precision number.
    pub fn observe(&mut self, n: u32, micros: u64) -> (r: Observe)
        ensures
            final(self).restoring == old(self).restoring,
            final(self).context == old(self).context,
            final(self).decisions == old(self).decisions,
            r == observed(old(self).measured, n, micros),
            final(self).measured == (old(self).measured || r == Observe::Seed),
    {
        observe(&mut self.measured, n, micros)
    }

    /// Restores in flight on top of what the cache reports.
    pub fn open_tickets(&self, cache: u64) -> (r: u64)
        requires
            cache < u64::MAX,
        ensures
            r == cache + if self.restoring is Some { 1int } else { 0 },
    {
        if self.restoring.is_some() {
            cache + 1
        } else {
            cache
        }
    }
}

/// Published pages always hold the whole prefix that was looked up: what a
/// fenced restore hands out is a proper prefix of every prompt that waited
/// for it.
pub proof fn waiting_prompts_extend_the_restore(t: PagedTier, tokens: Seq<u32>, resident: int)
    requires
        t.serves(tokens, resident),
    ensures
        t.restoring matches Some(r) && r.tokens.len() < tokens.len() && tokens.take(
            r.tokens.len() as int,
        ) == r.tokens@ && r.tokens.len() > resident,
{
}

} // verus!
