//! Copy proposals: what followed the last time these tokens stood here. They
//! compete with the neural drafter; the target still decides every token.
use vstd::prelude::*;
use std::collections::HashMap;
use crate::arith::min;
use crate::tables::{has_start, starts_with};

verus! {

broadcast use vstd::std_specs::hash::group_hash_axioms;

/// Tokens that must repeat before anything is copied.
pub const GRAM: usize = 6;

/// The longest proposal.
pub const MAX_DRAFT: usize = 5;

/// Failed continuations that are remembered at a time.
pub const REJECTED: usize = 32;

/// Tokens for which a failed continuation is remembered.
pub const COOLDOWN: usize = 64;

/// Where a run of tokens ended last, and the time before that.
#[derive(Clone, Copy, Debug)]
pub struct Entry {
    pub gram: [u32; 6],
    pub last: usize,
    pub previous: usize,
}

/// A timed round. The numbers are bit patterns of double-precision rates.
#[derive(Clone, Copy, Debug, PartialEq, Eq, Structural)]
pub struct Pace {
    /// The time was positive and finite.
    pub timed: bool,
    /// A copy round was not clearly faster than the drafter.
    pub slow: bool,
    /// The drafter's smoothed rate with this round.
    pub rate: u64,
}

#[derive(Debug)]
pub struct Lookup {
    pub history: Vec<u32>,
    /// Entries by the last two tokens of their run.
    pub index: HashMap<u64, Vec<Entry>>,
    /// Different runs in the index.
    pub grams: usize,
    /// Runs whose continuation failed, and the history length up to which
    /// they are not tried again.
    pub rejected: Vec<([u32; 6], usize)>,
    pub candidate: Option<[u32; 6]>,
    /// Bit pattern of the drafter's rate, once measured.
    pub neural_rate: Option<u64>,
    /// The round in flight and the run that it copies.
    pub round: Option<Option<[u32; 6]>>,
}

/// The run that ends at `n`.
pub open spec fn gram_at(h: Seq<u32>, n: int) -> Seq<u32> {
    h.subrange(n - 6, n)
}

/// The last two places up to `n` where `g` ends, zero for none.
pub open spec fn ends(h: Seq<u32>, n: int, g: Seq<u32>) -> (int, int)
    decreases n,
{
    if n < 6 {
        (0, 0)
    } else {
        let (a, b) = ends(h, n - 1, g);
        if gram_at(h, n) == g { (n, a) } else { (a, b) }
    }
}

/// Different runs that end up to `n`.
pub open spec fn distinct(h: Seq<u32>, n: int) -> int
    decreases n,
{
    if n < 6 {
        0
    } else {
        distinct(h, n - 1) + if ends(h, n - 1, gram_at(h, n)).0 == 0 { 1int } else { 0 }
    }
}

/// The last two ends are places where the run stands, and no later place
/// holds it.
pub proof fn ends_are_the_latest(h: Seq<u32>, n: int, g: Seq<u32>)
    requires
        0 <= n <= h.len(),
        g.len() == 6,
    ensures
        ({
            let (a, b) = ends(h, n, g);
            &&& 0 <= b <= a <= n
            &&& a != 0 ==> a >= 6 && gram_at(h, a) == g && b < a
            &&& b != 0 ==> b >= 6 && gram_at(h, b) == g
            &&& forall|m: int| 6 <= m <= n && #[trigger] gram_at(h, m) == g ==> m <= a
            &&& forall|m: int| 6 <= m <= n && m != a && #[trigger] gram_at(h, m) == g ==> m <= b
        }),
    decreases n,
{
    if n >= 6 {
        ends_are_the_latest(h, n - 1, g);
    }
}

proof fn lemma_ends_prefix(h: Seq<u32>, k: Seq<u32>, n: int, g: Seq<u32>)
    requires
        n <= h.len(),
        n <= k.len(),
        h.take(n) == k.take(n),
    ensures
        ends(h, n, g) == ends(k, n, g),
        distinct(h, n) == distinct(k, n),
    decreases n,
{
    if n >= 6 {
        assert(h.take(n - 1) =~= h.take(n).take(n - 1));
        assert(k.take(n - 1) =~= k.take(n).take(n - 1));
        lemma_ends_prefix(h, k, n - 1, g);
        assert(gram_at(h, n) =~= h.take(n).subrange(n - 6, n));
        assert(gram_at(k, n) =~= k.take(n).subrange(n - 6, n));
        lemma_ends_prefix(h, k, n - 1, gram_at(h, n));
    }
}

pub open spec fn key_of(g: Seq<u32>) -> u64 {
    (g[4] * 0x1_0000_0000 + g[5]) as u64
}

/// The first entry of `g` from `i` on, or the length.
pub open spec fn spot(b: Seq<Entry>, g: Seq<u32>, i: int) -> int
    decreases b.len() - i,
{
    if i >= b.len() {
        b.len() as int
    } else if b[i].gram@ == g {
        i
    } else {
        spot(b, g, i + 1)
    }
}

pub open spec fn find(b: Seq<Entry>, g: Seq<u32>) -> (int, int) {
    let s = spot(b, g, 0);
    if s < b.len() { (b[s].last as int, b[s].previous as int) } else { (0, 0) }
}

/// What an index holds of `g`.
pub open spec fn found(m: Map<u64, Vec<Entry>>, g: Seq<u32>) -> (int, int) {
    if m.dom().contains(key_of(g)) { find(m[key_of(g)]@, g) } else { (0, 0) }
}

/// Entries name real ends.
pub open spec fn entries_real(m: Map<u64, Vec<Entry>>) -> bool {
    forall|k: u64, i: int|
        m.dom().contains(k) && 0 <= i < m[k]@.len() ==> (#[trigger] m[k]@[i]).last >= 6
}

proof fn lemma_spot(b: Seq<Entry>, g: Seq<u32>, i: int)
    requires
        0 <= i <= b.len(),
    ensures
        i <= spot(b, g, i) <= b.len(),
        spot(b, g, i) < b.len() ==> b[spot(b, g, i)].gram@ == g,
        forall|j: int| i <= j < spot(b, g, i) ==> (#[trigger] b[j]).gram@ != g,
    decreases b.len() - i,
{
    if i < b.len() && b[i].gram@ != g {
        lemma_spot(b, g, i + 1);
    }
}

proof fn lemma_spot_update(b: Seq<Entry>, j: int, e: Entry, g: Seq<u32>, i: int)
    requires
        0 <= j < b.len(),
        0 <= i,
        e.gram@ == b[j].gram@,
    ensures
        spot(b.update(j, e), g, i) == spot(b, g, i),
    decreases b.len() - i,
{
    if i < b.len() {
        lemma_spot_update(b, j, e, g, i + 1);
    }
}

proof fn lemma_spot_push(b: Seq<Entry>, e: Entry, g: Seq<u32>, i: int)
    requires
        0 <= i <= b.len(),
    ensures
        spot(b.push(e), g, i) == if spot(b, g, i) < b.len() {
            spot(b, g, i)
        } else if e.gram@ == g {
            b.len() as int
        } else {
            b.len() as int + 1
        },
    decreases b.len() - i,
{
    if i < b.len() {
        lemma_spot_push(b, e, g, i + 1);
    } else {
        assert(spot(b.push(e), g, b.len() as int + 1) == b.len() + 1);
    }
}

fn same(a: &[u32; 6], b: &[u32; 6]) -> (r: bool)
    ensures
        r == (a@ == b@),
{
    if a[0] == b[0] && a[1] == b[1] && a[2] == b[2] && a[3] == b[3] && a[4] == b[4] && a[5] == b[5] {
        assert(a@ =~= b@);
        true
    } else {
        false
    }
}

fn copied(g: &[u32; 6]) -> (r: [u32; 6])
    ensures
        r@ == g@,
{
    let r = [g[0], g[1], g[2], g[3], g[4], g[5]];
    assert(r@ =~= g@);
    r
}

/// Remembered failures, as values.
pub open spec fn failures(v: Seq<([u32; 6], usize)>) -> Seq<(Seq<u32>, int)> {
    v.map_values(|p: ([u32; 6], usize)| (p.0@, p.1 as int))
}

/// Those that are still remembered at length `end`.
pub open spec fn cooling(s: Seq<(Seq<u32>, int)>, end: int) -> Seq<(Seq<u32>, int)>
    decreases s.len(),
{
    if s.len() == 0 {
        s
    } else {
        let rest = cooling(s.drop_first(), end);
        if s[0].1 > end { seq![s[0]] + rest } else { rest }
    }
}

/// Those of other runs.
pub open spec fn others(s: Seq<(Seq<u32>, int)>, g: Seq<u32>) -> Seq<(Seq<u32>, int)>
    decreases s.len(),
{
    if s.len() == 0 {
        s
    } else {
        let rest = others(s.drop_first(), g);
        if s[0].0 == g { rest } else { seq![s[0]] + rest }
    }
}

pub open spec fn barred(s: Seq<(Seq<u32>, int)>, g: Seq<u32>) -> bool {
    exists|i: int| 0 <= i < s.len() && (#[trigger] s[i]).0 == g
}

/// The run that a history ends with, once it is long enough.
pub open spec fn final_gram(h: Seq<u32>) -> Seq<u32> {
    gram_at(h, h.len() as int)
}

/// Tokens that a proposal can take from where the run stood before.
pub open spec fn copyable(h: Seq<u32>, budget: int) -> int {
    let previous = ends(h, h.len() as int, final_gram(h)).1;
    if previous < 6 { 0 } else { min(min(budget, 5), h.len() - previous) }
}

/// Whether anything is proposed.
pub open spec fn proposes(h: Seq<u32>, failed: Seq<(Seq<u32>, int)>, budget: int) -> bool {
    &&& budget >= 2
    &&& h.len() >= 6
    &&& !barred(cooling(failed, h.len() as int), final_gram(h))
    &&& copyable(h, budget) >= 2
}

/// What is proposed.
pub open spec fn proposal(h: Seq<u32>, failed: Seq<(Seq<u32>, int)>, budget: int) -> Seq<u32> {
    if proposes(h, failed, budget) {
        let previous = ends(h, h.len() as int, final_gram(h)).1;
        h.subrange(previous, previous + copyable(h, budget))
    } else {
        Seq::empty()
    }
}

/// A proposal repeats what once followed the same six tokens, and stays
/// inside its budget.
pub proof fn proposals_copy_a_prior_continuation(h: Seq<u32>, failed: Seq<(Seq<u32>, int)>, budget: int)
    ensures
        ({
            let p = proposal(h, failed, budget);
            &&& p.len() == 0 || 2 <= p.len() <= 5
            &&& p.len() <= budget || p.len() == 0
            &&& p.len() > 0 ==> exists|e: int|
                6 <= e < h.len() && #[trigger] gram_at(h, e) == final_gram(h) && p == h.subrange(
                    e,
                    e + p.len(),
                )
        }),
{
    if proposes(h, failed, budget) {
        ends_are_the_latest(h, h.len() as int, final_gram(h));
        let previous = ends(h, h.len() as int, final_gram(h)).1;
        assert(gram_at(h, previous) == final_gram(h));
    }
}

impl Lookup {
    pub open spec fn wf(&self) -> bool {
        &&& forall|g: Seq<u32>|
            g.len() == 6 ==> #[trigger] found(self.index@, g) == ends(
                self.history@,
                self.history.len() as int,
                g,
            )
        &&& entries_real(self.index@)
        &&& self.grams == distinct(self.history@, self.history.len() as int)
        &&& self.rejected.len() <= 32
    }

    /// A lookup that has seen nothing.
    pub open spec fn fresh(&self) -> bool {
        &&& self.wf()
        &&& self.history@ == Seq::<u32>::empty()
        &&& failures(self.rejected@) == Seq::<(Seq<u32>, int)>::empty()
        &&& self.candidate is None
        &&& self.neural_rate is None
        &&& self.round is None
    }

    pub fn new() -> (r: Self)
        ensures
            r.fresh(),
    {
        let r = Lookup {
            history: Vec::new(),
            index: HashMap::new(),
            grams: 0,
            rejected: Vec::new(),
            candidate: None,
            neural_rate: None,
            round: None,
        };
        assert(failures(r.rejected@) =~= Seq::<(Seq<u32>, int)>::empty());
        r
    }

    /// Different runs in the index.
    pub fn index_len(&self) -> (r: usize)
        requires
            self.wf(),
        ensures
            r == distinct(self.history@, self.history.len() as int),
    {
        self.grams
    }

    /// The last two ends of a run that the index holds.
    pub fn entry(&self, gram: &[u32; 6]) -> (r: Option<(usize, usize)>)
        requires
            self.wf(),
        ensures
            ({
                let e = ends(self.history@, self.history.len() as int, gram@);
                match r {
                    Some((a, b)) => a as int == e.0 && b as int == e.1 && e.0 != 0,
                    None => e.0 == 0,
                }
            }),
    {
        let key: u64 = gram[4] as u64 * 0x1_0000_0000 + gram[5] as u64;
        assert(key == key_of(gram@));
        assert(found(self.index@, gram@) == ends(self.history@, self.history.len() as int, gram@));
        match self.index.get(&key) {
            None => None,
            Some(b) => {
                let i: usize = position(b, gram);
                if i < b.len() {
                    assert(self.index@[key]@[i as int].last >= 6);
                    Some((b[i].last, b[i].previous))
                } else {
                    None
                }
            },
        }
    }

    fn push(&mut self, token: u32)
        requires
            old(self).wf(),
            old(self).history.len() < usize::MAX,
        ensures
            final(self).wf(),
            final(self).history@ == old(self).history@.push(token),
            final(self).rejected == old(self).rejected,
            final(self).candidate == old(self).candidate,
            final(self).neural_rate == old(self).neural_rate,
            final(self).round == old(self).round,
    {
        let ghost before = self.history@;
        let ghost held = self.index@;
        self.history.push(token);
        let end: usize = self.history.len();
        let ghost h = self.history@;
        proof {
            assert(h.take(end - 1) =~= before.take(end - 1));
            assert forall|g: Seq<u32>| g.len() == 6 implies #[trigger] ends(before, end - 1, g) == ends(
                h,
                end - 1,
                g,
            ) by {
                lemma_ends_prefix(h, before, end - 1, g);
            }
            lemma_ends_prefix(h, before, end - 1, before);
        }
        if end < GRAM {
            proof {
                assert forall|g: Seq<u32>| g.len() == 6 implies #[trigger] found(self.index@, g) == ends(
                    h,
                    end as int,
                    g,
                ) by {
                    assert(ends(before, end - 1, g) == ends(h, end - 1, g));
                }
            }
            return;
        }
        let v = &self.history;
        let gram: [u32; 6] = [v[end - 6], v[end - 5], v[end - 4], v[end - 3], v[end - 2], v[end - 1]];
        let ghost g0 = gram@;
        assert(g0 =~= gram_at(h, end as int));
        let key: u64 = gram[4] as u64 * 0x1_0000_0000 + gram[5] as u64;
        assert(key == key_of(g0));
        let mut bucket: Vec<Entry> = match self.index.remove(&key) {
            Some(b) => b,
            None => Vec::new(),
        };
        let ghost old_bucket = bucket@;
        let i: usize = position(&bucket, &gram);
        proof {
            assert(found(held, g0) == ends(before, end - 1, g0));
            assert(found(held, g0) == find(old_bucket, g0));
        }
        if i < bucket.len() {
            let last: usize = bucket[i].last;
            assert(last >= 6) by {
                assert(held[key]@[i as int].last >= 6);
            }
            let e = Entry { gram, last: end, previous: last };
            bucket.set(i, e);
            proof {
                assert forall|g: Seq<u32>| true implies #[trigger] spot(bucket@, g, 0) == spot(
                    old_bucket,
                    g,
                    0,
                ) by {
                    lemma_spot_update(old_bucket, i as int, e, g, 0);
                }
            }
        } else {
            let e = Entry { gram, last: end, previous: 0 };
            bucket.push(e);
            proof {
                lemma_distinct(h, end as int);
                assert forall|g: Seq<u32>| true implies #[trigger] spot(bucket@, g, 0) == (if spot(
                    old_bucket,
                    g,
                    0,
                ) < old_bucket.len() {
                    spot(old_bucket, g, 0)
                } else if gram@ == g {
                    old_bucket.len() as int
                } else {
                    old_bucket.len() as int + 1
                }) by {
                    lemma_spot_push(old_bucket, e, g, 0);
                }
            }
            self.grams = self.grams + 1;
        }
        let ghost shown = bucket;
        let _ = self.index.insert(key, bucket);
        proof {
            assert(self.index@ =~= held.insert(key, shown));
            assert forall|g: Seq<u32>| g.len() == 6 implies #[trigger] found(self.index@, g) == ends(
                h,
                end as int,
                g,
            ) by {
                assert(found(held, g) == ends(before, end - 1, g));
                assert(ends(before, end - 1, g) == ends(h, end - 1, g));
                if key_of(g) == key {
                    lemma_spot(old_bucket, g, 0);
                    lemma_spot(old_bucket, g0, 0);
                    assert(spot(shown@, g, 0) >= 0);
                    if g != g0 {
                        assert(find(shown@, g) == find(old_bucket, g));
                    }
                }
            }
            assert forall|k: u64, j: int|
                self.index@.dom().contains(k) && 0 <= j < self.index@[k]@.len() implies (
            #[trigger] self.index@[k]@[j]).last >= 6 by {
                if k != key {
                    assert(held[k]@[j].last >= 6);
                } else if j != i && j < old_bucket.len() {
                    assert(held[k]@[j].last >= 6);
                }
            }
        }
    }

    fn keep_cooling(&mut self, end: usize)
        requires
            old(self).wf(),
        ensures
            final(self).wf(),
            final(self).history == old(self).history,
            final(self).candidate == old(self).candidate,
            final(self).neural_rate == old(self).neural_rate,
            final(self).round == old(self).round,
            failures(final(self).rejected@) == cooling(failures(old(self).rejected@), end as int),
    {
        let ghost whole = cooling(failures(self.rejected@), end as int);
        let mut i: usize = 0;
        assert(failures(self.rejected@).skip(0) =~= failures(self.rejected@));
        assert(failures(self.rejected@).take(0) + whole =~= whole);
        while i < self.rejected.len()
            invariant
                i <= self.rejected.len() <= 32,
                self.history == old(self).history,
                self.index == old(self).index,
                self.grams == old(self).grams,
                self.candidate == old(self).candidate,
                self.neural_rate == old(self).neural_rate,
                self.round == old(self).round,
                failures(self.rejected@).take(i as int) + cooling(
                    failures(self.rejected@).skip(i as int),
                    end as int,
                ) == whole,
            decreases self.rejected.len() - i,
        {
            let ghost all = failures(self.rejected@);
            proof {
                assert(all.skip(i as int)[0] == all[i as int]);
                assert(all.skip(i as int).drop_first() =~= all.skip(i + 1));
            }
            if self.rejected[i].1 > end {
                assert(all.take(i + 1) + cooling(all.skip(i + 1), end as int) =~= all.take(i as int) + (
                seq![all[i as int]] + cooling(all.skip(i + 1), end as int)));
                i = i + 1;
            } else {
                let _ = self.rejected.remove(i);
                proof {
                    let now = failures(self.rejected@);
                    assert(now.take(i as int) =~= all.take(i as int));
                    assert(now.skip(i as int) =~= all.skip(i + 1));
                }
            }
        }
        proof {
            let now = failures(self.rejected@);
            assert(now.skip(i as int) =~= Seq::<(Seq<u32>, int)>::empty());
            assert(now.take(i as int) + Seq::<(Seq<u32>, int)>::empty() =~= now);
        }
    }

    fn is_barred(&self, gram: &[u32; 6]) -> (r: bool)
        ensures
            r == barred(failures(self.rejected@), gram@),
    {
        let mut i: usize = 0;
        while i < self.rejected.len()
            invariant
                i <= self.rejected.len(),
                forall|j: int| 0 <= j < i ==> (#[trigger] failures(self.rejected@)[j]).0 != gram@,
            decreases self.rejected.len() - i,
        {
            assert(failures(self.rejected@)[i as int].0 == self.rejected[i as int].0@);
            if same(&self.rejected[i].0, gram) {
                return true;
            }
            i = i + 1;
        }
        false
    }

    /// What a lookup answers, and what it is afterwards: its history is that
    /// of the request, and the failures of any other history are gone.
    pub open spec fn answered(
        &self,
        committed: Seq<u32>,
        pending: u32,
        budget: int,
        after: Lookup,
        r: Seq<u32>,
    ) -> bool {
        let kept = starts_with(committed, self.history@);
        let h = committed.push(pending);
        let failed = if kept { failures(self.rejected@) } else { Seq::empty() };
        &&& after.wf()
        &&& after.history@ == h
        &&& after.round is None
        &&& after.neural_rate == if kept { self.neural_rate } else { None }
        &&& failures(after.rejected@) == if budget < 2 || h.len() < 6 {
            failed
        } else {
            cooling(failed, h.len() as int)
        }
        &&& r == proposal(h, failed, budget)
        &&& match after.candidate {
            Some(g) => proposes(h, failed, budget) && g@ == final_gram(h),
            None => !proposes(h, failed, budget),
        }
    }

    /// Bring the index up to `committed` and `pending`, and propose what
    /// followed the same run before. Any other history starts afresh.
    pub fn propose(&mut self, committed: &Vec<u32>, pending: u32, budget: usize) -> (r: Vec<u32>)
        requires
            old(self).wf(),
            committed.len() < usize::MAX,
        ensures
            old(self).answered(committed@, pending, budget as int, *final(self), r@),
    {
        self.round = None;
        self.candidate = None;
        if !has_start(committed, &self.history) {
            let fresh = Lookup::new();
            *self = fresh;
        }
        let ghost failed = failures(self.rejected@);
        let ghost rate = self.neural_rate;
        let mut n: usize = self.history.len();
        assert(committed@.take(n as int) =~= self.history@);
        while n < committed.len()
            invariant
                n <= committed.len() < usize::MAX,
                self.wf(),
                self.history@ == committed@.take(n as int),
                self.candidate is None,
                self.round is None,
                self.neural_rate == rate,
                failures(self.rejected@) == failed,
            decreases committed.len() - n,
        {
            self.push(committed[n]);
            assert(self.history@ =~= committed@.take(n + 1));
            n = n + 1;
        }
        assert(committed@.take(n as int) =~= committed@);
        self.push(pending);
        let ghost h = self.history@;
        let end: usize = self.history.len();
        let nothing: Vec<u32> = Vec::new();
        assert(nothing@ =~= Seq::<u32>::empty());
        if budget < 2 || end < GRAM {
            return nothing;
        }
        let v = &self.history;
        let gram: [u32; 6] = [v[end - 6], v[end - 5], v[end - 4], v[end - 3], v[end - 2], v[end - 1]];
        assert(gram@ =~= final_gram(h));
        self.keep_cooling(end);
        if self.is_barred(&gram) {
            return nothing;
        }
        proof {
            ends_are_the_latest(h, end as int, gram@);
        }
        let previous: usize = match self.entry(&gram) {
            Some((_, p)) => p,
            None => 0,
        };
        if previous < GRAM || previous >= end {
            return nothing;
        }
        let cap: usize = if budget < MAX_DRAFT { budget } else { MAX_DRAFT };
        let count: usize = if cap < end - previous { cap } else { end - previous };
        if count < 2 {
            return nothing;
        }
        self.candidate = Some(gram);
        let mut out: Vec<u32> = Vec::new();
        let mut i: usize = 0;
        while i < count
            invariant
                i <= count,
                previous + count <= end == self.history.len(),
                out@ == self.history@.subrange(previous as int, previous + i),
            decreases count - i,
        {
            out.push(self.history[previous + i]);
            assert(out@ =~= self.history@.subrange(previous as int, previous + i + 1));
            i = i + 1;
        }
        out
    }

    /// A round begins, with the proposed copy or without.
    pub fn begin(&mut self, lookup: bool)
        requires
            old(self).wf(),
        ensures
            final(self).wf(),
            final(self).history == old(self).history,
            final(self).rejected == old(self).rejected,
            final(self).candidate == old(self).candidate,
            final(self).neural_rate == old(self).neural_rate,
            final(self).round matches Some(key) && match (key, old(self).candidate) {
                (Some(a), Some(b)) => lookup && a@ == b@,
                (None, Some(_)) => !lookup,
                (None, None) => true,
                _ => false,
            },
    {
        let key = match &self.candidate {
            Some(g) => if lookup {
                Some(copied(g))
            } else {
                None
            },
            None => None,
        };
        self.round = Some(key);
    }

    pub fn cancel(&mut self)
        requires
            old(self).wf(),
        ensures
            final(self).wf(),
            final(self).history == old(self).history,
            final(self).rejected == old(self).rejected,
            final(self).candidate == old(self).candidate,
            final(self).neural_rate == old(self).neural_rate,
            final(self).round is None,
    {
        self.round = None;
    }

    /// What the end of the round in flight changes; without one, nothing.
    pub open spec fn ended(&self, tokens: usize, pace: Pace, after: Lookup) -> bool {
        &&& after.history == self.history
        &&& after.candidate == self.candidate
        &&& after.round is None
        &&& match self.round {
            None => after.rejected == self.rejected && after.neural_rate == self.neural_rate,
            Some(key) => self.observed(key, tokens, pace, after),
        }
    }

    /// The round in flight committed this many tokens.
    pub fn commit(&mut self, tokens: usize, pace: Pace)
        requires
            old(self).wf(),
        ensures
            final(self).wf(),
            old(self).ended(tokens, pace, *final(self)),
    {
        let mut round: Option<Option<[u32; 6]>> = None;
        std::mem::swap(&mut self.round, &mut round);
        if let Some(key) = round {
            self.observe(key, tokens, pace);
        }
    }

    /// What a timed round changes: a copy that committed too little or ran
    /// too slowly is remembered as failed; any other round sets the
    /// drafter's rate.
    pub open spec fn observed(&self, key: Option<[u32; 6]>, tokens: usize, pace: Pace, after: Lookup) -> bool {
        let failed = failures(self.rejected@);
        let now = failures(after.rejected@);
        if !pace.timed {
            after.rejected == self.rejected && after.neural_rate == self.neural_rate
        } else {
            match key {
                None => after.rejected == self.rejected && after.neural_rate == Some(pace.rate),
                Some(g) => {
                    &&& after.neural_rate == self.neural_rate
                    &&& if tokens < 2 || (self.neural_rate is Some && pace.slow) {
                        now == forgotten(others(failed, g@)).push(
                            (g@, min(self.history.len() + 64, usize::MAX as int)),
                        )
                    } else {
                        after.rejected == self.rejected
                    }
                },
            }
        }
    }

    pub fn observe(&mut self, key: Option<[u32; 6]>, tokens: usize, pace: Pace)
        requires
            old(self).wf(),
        ensures
            final(self).wf(),
            final(self).history == old(self).history,
            final(self).candidate == old(self).candidate,
            final(self).round == old(self).round,
            old(self).observed(key, tokens, pace, *final(self)),
    {
        if !pace.timed {
            return;
        }
        match key {
            None => {
                self.neural_rate = Some(pace.rate);
            },
            Some(g) => {
                if tokens < 2 || (self.neural_rate.is_some() && pace.slow) {
                    self.forget(&g);
                    if self.rejected.len() == REJECTED {
                        let ghost before = failures(self.rejected@);
                        let _ = self.rejected.remove(0);
                        assert(failures(self.rejected@) =~= before.drop_first());
                    }
                    let until: usize = if self.history.len() <= usize::MAX - COOLDOWN {
                        self.history.len() + COOLDOWN
                    } else {
                        usize::MAX
                    };
                    let ghost before = self.rejected@;
                    self.rejected.push((g, until));
                    assert(failures(self.rejected@) =~= failures(before).push((g@, until as int)));
                }
            },
        }
    }

    fn forget(&mut self, g: &[u32; 6])
        requires
            old(self).wf(),
        ensures
            final(self).wf(),
            final(self).history == old(self).history,
            final(self).candidate == old(self).candidate,
            final(self).neural_rate == old(self).neural_rate,
            final(self).round == old(self).round,
            failures(final(self).rejected@) == others(failures(old(self).rejected@), g@),
    {
        let ghost whole = others(failures(self.rejected@), g@);
        let mut i: usize = 0;
        assert(failures(self.rejected@).skip(0) =~= failures(self.rejected@));
        assert(failures(self.rejected@).take(0) + whole =~= whole);
        while i < self.rejected.len()
            invariant
                i <= self.rejected.len() <= 32,
                self.history == old(self).history,
                self.index == old(self).index,
                self.grams == old(self).grams,
                self.candidate == old(self).candidate,
                self.neural_rate == old(self).neural_rate,
                self.round == old(self).round,
                failures(self.rejected@).take(i as int) + others(
                    failures(self.rejected@).skip(i as int),
                    g@,
                ) == whole,
            decreases self.rejected.len() - i,
        {
            let ghost all = failures(self.rejected@);
            proof {
                assert(all.skip(i as int)[0] == all[i as int]);
                assert(all.skip(i as int).drop_first() =~= all.skip(i + 1));
            }
            if same(&self.rejected[i].0, g) {
                let _ = self.rejected.remove(i);
                proof {
                    let now = failures(self.rejected@);
                    assert(now.take(i as int) =~= all.take(i as int));
                    assert(now.skip(i as int) =~= all.skip(i + 1));
                }
            } else {
                assert(all.take(i + 1) + others(all.skip(i + 1), g@) =~= all.take(i as int) + (seq![
                    all[i as int],
                ] + others(all.skip(i + 1), g@)));
                i = i + 1;
            }
        }
        proof {
            let now = failures(self.rejected@);
            assert(now.skip(i as int) =~= Seq::<(Seq<u32>, int)>::empty());
            assert(now.take(i as int) + Seq::<(Seq<u32>, int)>::empty() =~= now);
        }
    }
}

/// A used lookup answers as a new one does, wherever its history was replaced
/// or no failure bars the run that the request ends with: the same proposal
/// and candidate, over the same history and index. After a replaced history
/// nothing else is left either.
pub proof fn used_lookups_answer_as_new_ones(
    used: Lookup,
    new: Lookup,
    committed: Seq<u32>,
    pending: u32,
    budget: int,
    a: Lookup,
    x: Seq<u32>,
    b: Lookup,
    y: Seq<u32>,
)
    requires
        new.fresh(),
        used.answered(committed, pending, budget, a, x),
        new.answered(committed, pending, budget, b, y),
        starts_with(committed, used.history@) ==> !barred(
            cooling(failures(used.rejected@), committed.len() + 1int),
            final_gram(committed.push(pending)),
        ),
    ensures
        x == y,
        a.history@ == b.history@,
        a.history@ == committed.push(pending),
        a.grams == b.grams,
        forall|g: Seq<u32>| g.len() == 6 ==> #[trigger] found(a.index@, g) == found(b.index@, g),
        match (a.candidate, b.candidate) {
            (Some(g), Some(k)) => g@ == k@,
            (None, None) => true,
            _ => false,
        },
        a.round == b.round,
        !starts_with(committed, used.history@) ==> {
            &&& a.neural_rate == b.neural_rate
            &&& failures(a.rejected@) == failures(b.rejected@)
        },
{
    let h = committed.push(pending);
    let none = Seq::<(Seq<u32>, int)>::empty();
    assert(starts_with(committed, new.history@)) by {
        assert(committed.take(0) =~= Seq::<u32>::empty());
    }
    assert(cooling(none, h.len() as int) == none);
    assert(!barred(none, final_gram(h)));
    assert forall|g: Seq<u32>| g.len() == 6 implies #[trigger] found(a.index@, g) == found(b.index@, g) by {
        assert(found(b.index@, g) == ends(b.history@, b.history.len() as int, g));
    }
}

/// A commit without a round has no effect: after a cancel, or where none was
/// begun, failures and rate stay, and every later request is answered as it
/// would have been.
pub proof fn commits_without_a_round_change_nothing(
    l: Lookup,
    tokens: usize,
    pace: Pace,
    after: Lookup,
    committed: Seq<u32>,
    pending: u32,
    budget: int,
    a: Lookup,
    x: Seq<u32>,
    b: Lookup,
    y: Seq<u32>,
)
    requires
        l.round is None,
        l.ended(tokens, pace, after),
        l.answered(committed, pending, budget, a, x),
        after.answered(committed, pending, budget, b, y),
    ensures
        after.rejected == l.rejected,
        after.neural_rate == l.neural_rate,
        after.history == l.history,
        after.candidate == l.candidate,
        after.round == l.round,
        x == y,
        a.history@ == b.history@,
        a.neural_rate == b.neural_rate,
        failures(a.rejected@) == failures(b.rejected@),
        match (a.candidate, b.candidate) {
            (Some(g), Some(k)) => g@ == k@,
            (None, None) => true,
            _ => false,
        },
{
}

/// The oldest failure makes room for the next.
pub open spec fn forgotten(s: Seq<(Seq<u32>, int)>) -> Seq<(Seq<u32>, int)> {
    if s.len() == 32 { s.drop_first() } else { s }
}

proof fn lemma_distinct(h: Seq<u32>, n: int)
    requires
        0 <= n <= h.len(),
    ensures
        0 <= distinct(h, n) <= n,
    decreases n,
{
    if n >= 6 {
        lemma_distinct(h, n - 1);
    }
}

fn position(b: &Vec<Entry>, gram: &[u32; 6]) -> (r: usize)
    ensures
        r == spot(b@, gram@, 0),
        r <= b.len(),
        r < b.len() ==> b[r as int].gram@ == gram@,
{
    let mut i: usize = 0;
    while i < b.len()
        invariant
            i <= b.len(),
            spot(b@, gram@, 0) == spot(b@, gram@, i as int),
        decreases b.len() - i,
    {
        if same(&b[i].gram, gram) {
            return i;
        }
        i = i + 1;
    }
    i
}

} // verus!
