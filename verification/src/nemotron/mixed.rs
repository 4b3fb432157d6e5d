//! Prompts in progress, and ticks that mix their chunks with decode rows.
use vstd::prelude::*;
use crate::error::{Fault, MetalError};
use crate::nemotron::graph::{Nemotron, Pending, VOCAB};
use crate::nemotron::serving::{cleared, same_model};
use crate::rows::Row;

verus! {

/// A prompt in progress, as a value.
#[verifier::ext_equal]
pub struct Job {
    pub slot: usize,
    pub tokens: Seq<u32>,
    pub offset: int,
    pub work: int,
}

impl View for Pending {
    type V = Job;

    open spec fn view(&self) -> Job {
        Job {
            slot: self.slot,
            tokens: self.tokens@,
            offset: self.offset as int,
            work: self.work as int,
        }
    }
}

pub open spec fn jobs(pending: Seq<Pending>) -> Seq<Job> {
    pending.map_values(|p: Pending| p@)
}

/// What stays of `jobs` without those that `done` names, in order.
pub open spec fn kept(jobs: Seq<Job>, done: spec_fn(Job) -> bool) -> Seq<Job>
    decreases jobs.len(),
{
    if jobs.len() == 0 {
        Seq::empty()
    } else {
        let rest = kept(jobs.drop_first(), done);
        if done(jobs[0]) { rest } else { seq![jobs[0]] + rest }
    }
}

/// The next `n` rows of a prompt.
pub open spec fn prompt_rows(job: Job, n: int) -> Seq<Row> {
    Seq::new(
        n as nat,
        |i: int|
            Row {
                slot: job.slot,
                token: job.tokens[job.offset + i],
                position: (job.offset + i) as u32,
            },
    )
}

/// Decode rows, then the granted rows of the first `n` prompts.
pub open spec fn mixed_rows(decodes: Seq<Row>, jobs: Seq<Job>, grants: Seq<usize>, n: int) -> Seq<Row>
    decreases n,
{
    if n <= 0 {
        decodes
    } else {
        mixed_rows(decodes, jobs, grants, n - 1) + prompt_rows(jobs[n - 1], grants[n - 1] as int)
    }
}

pub open spec fn completes(job: Job, grant: usize) -> bool {
    grant > 0 && job.offset + grant == job.tokens.len()
}

/// Slot, last row and length of each prompt that ends in the tick.
pub open spec fn completed(decodes: Seq<Row>, jobs: Seq<Job>, grants: Seq<usize>, n: int) -> Seq<(
    usize,
    usize,
    usize,
)>
    decreases n,
{
    if n <= 0 {
        Seq::empty()
    } else {
        let before = completed(decodes, jobs, grants, n - 1);
        if completes(jobs[n - 1], grants[n - 1]) {
            before.push(
                (
                    jobs[n - 1].slot,
                    (mixed_rows(decodes, jobs, grants, n).len() - 1) as usize,
                    jobs[n - 1].tokens.len() as usize,
                ),
            )
        } else {
            before
        }
    }
}

/// Every decode row and the last row of each completed prompt.
pub open spec fn mixed_outputs(decodes: int, done: Seq<(usize, usize, usize)>) -> Seq<usize> {
    Seq::new(decodes as nat, |i: int| i as usize) + done.map_values(|d: (usize, usize, usize)| d.1)
}

/// Each grant stays inside its prompt.
pub open spec fn grants_fit(jobs: Seq<Job>, grants: Seq<usize>) -> bool {
    &&& grants.len() == jobs.len()
    &&& forall|i: int|
        0 <= i < jobs.len() ==> jobs[i].offset + #[trigger] grants[i] <= jobs[i].tokens.len()
}

/// Prompts after their grants.
pub open spec fn moved(jobs: Seq<Job>, grants: Seq<usize>) -> Seq<Job> {
    Seq::new(jobs.len(), |i: int| Job { offset: jobs[i].offset + grants[i], ..jobs[i] })
}

#[derive(Debug)]
pub struct Mixed {
    pub rows: Vec<Row>,
    pub outputs: Vec<usize>,
    pub complete: Vec<(usize, usize, usize)>,
}

/// The outputs of a mixed tick are rows of it, and there is one for each
/// decode row and each completed prompt.
pub proof fn mixed_outputs_are_rows(decodes: Seq<Row>, jobs: Seq<Job>, grants: Seq<usize>, n: int)
    requires
        0 <= n <= jobs.len(),
        grants.len() == jobs.len(),
        mixed_rows(decodes, jobs, grants, n).len() <= usize::MAX,
    ensures
        ({
            let rows = mixed_rows(decodes, jobs, grants, n);
            let done = completed(decodes, jobs, grants, n);
            let out = mixed_outputs(decodes.len() as int, done);
            &&& decodes.len() <= rows.len()
            &&& out.len() == decodes.len() + done.len()
            &&& forall|i: int| 0 <= i < out.len() ==> #[trigger] out[i] < rows.len()
        }),
    decreases n,
{
    if n > 0 {
        mixed_outputs_are_rows(decodes, jobs, grants, n - 1);
        let rows = mixed_rows(decodes, jobs, grants, n);
        let before = completed(decodes, jobs, grants, n - 1);
        let done = completed(decodes, jobs, grants, n);
        let earlier = mixed_outputs(decodes.len() as int, before);
        let out = mixed_outputs(decodes.len() as int, done);
        assert forall|i: int| 0 <= i < out.len() implies #[trigger] out[i] < rows.len() by {
            if i < earlier.len() {
                assert(out[i] == earlier[i]);
            }
        }
    }
}

/// A completed prompt's output is its last token, at its last position.
pub proof fn completed_prompts_end_at_their_output(
    decodes: Seq<Row>,
    jobs: Seq<Job>,
    grants: Seq<usize>,
    n: int,
    k: int,
)
    requires
        0 <= n <= jobs.len(),
        grants_fit(jobs, grants),
        forall|i: int|
            0 <= i < jobs.len() ==> 0 <= (#[trigger] jobs[i]).offset && jobs[i].tokens.len()
                <= u32::MAX,
        mixed_rows(decodes, jobs, grants, n).len() <= usize::MAX,
        0 <= k < completed(decodes, jobs, grants, n).len(),
    ensures
        ({
            let rows = mixed_rows(decodes, jobs, grants, n);
            let (slot, row, len) = completed(decodes, jobs, grants, n)[k];
            &&& row < rows.len()
            &&& rows[row as int].slot == slot
            &&& rows[row as int].position == len - 1
            &&& exists|j: int|
                0 <= j < n && (#[trigger] jobs[j]).slot == slot && jobs[j].tokens.len() == len
                    && jobs[j].tokens.last() == rows[row as int].token
        }),
    decreases n,
{
    if n > 0 {
        let before = completed(decodes, jobs, grants, n - 1);
        let earlier = mixed_rows(decodes, jobs, grants, n - 1);
        let rows = mixed_rows(decodes, jobs, grants, n);
        if k < before.len() {
            completed_prompts_end_at_their_output(decodes, jobs, grants, n - 1, k);
            assert(rows[before[k].1 as int] == earlier[before[k].1 as int]);
        } else {
            let job = jobs[n - 1];
            let g = grants[n - 1] as int;
            assert(completes(job, grants[n - 1]));
            assert(rows.last() == prompt_rows(job, g)[g - 1]);
            assert(jobs[n - 1].slot == job.slot);
        }
    }
}

/// Slots of the first `n` prompts that were granted rows.
pub open spec fn granted(jobs: Seq<Job>, grants: Seq<usize>, n: int) -> Seq<usize>
    decreases n,
{
    if n <= 0 {
        Seq::empty()
    } else {
        let before = granted(jobs, grants, n - 1);
        if grants[n - 1] > 0 { before.push(jobs[n - 1].slot) } else { before }
    }
}

impl Nemotron {
    /// The slots whose prompts a tick moved on; their state may be due for
    /// saving.
    pub fn granted_slots(&self, grants: &Vec<usize>) -> (r: Vec<usize>)
        requires
            grants.len() == self.pending.len(),
        ensures
            r@ == granted(jobs(self.pending@), grants@, grants.len() as int),
    {
        let ghost all = jobs(self.pending@);
        let mut out: Vec<usize> = Vec::new();
        let mut i: usize = 0;
        while i < grants.len()
            invariant
                i <= grants.len() == self.pending.len(),
                all == jobs(self.pending@),
                out@ == granted(all, grants@, i as int),
            decreases grants.len() - i,
        {
            assert(all[i as int] == self.pending[i as int]@);
            if grants[i] > 0 {
                out.push(self.pending[i].slot);
            }
            i = i + 1;
        }
        out
    }

    /// The prompts' remaining rows and total work, for the scheduler.
    pub fn demands(&self) -> (r: Vec<(usize, usize)>)
        requires
            self.wf(),
        ensures
            r@ == Seq::new(
                self.pending.len() as nat,
                |i: int|
                    (
                        (self.pending[i].tokens.len() - self.pending[i].offset) as usize,
                        self.pending[i].work,
                    ),
            ),
    {
        let mut out: Vec<(usize, usize)> = Vec::new();
        let mut i: usize = 0;
        let ghost want = Seq::new(
            self.pending.len() as nat,
            |i: int|
                (
                    (self.pending[i].tokens.len() - self.pending[i].offset) as usize,
                    self.pending[i].work,
                ),
        );
        while i < self.pending.len()
            invariant
                i <= self.pending.len(),
                self.wf(),
                want == Seq::new(
                    self.pending.len() as nat,
                    |i: int|
                        (
                            (self.pending[i].tokens.len() - self.pending[i].offset) as usize,
                            self.pending[i].work,
                        ),
                ),
                out@ == want.take(i as int),
            decreases self.pending.len() - i,
        {
            let p = &self.pending[i];
            assert(p.wf(self.slots.len() as int, self.context));
            out.push((p.tokens.len() - p.offset, p.work));
            assert(out@ =~= want.take(i + 1));
            i = i + 1;
        }
        assert(want.take(self.pending.len() as int) =~= want);
        out
    }

    /// Begin a prompt of which `reused` tokens are already in place.
    pub fn prefill_begin(&mut self, slot: usize, tokens: Vec<u32>, reused: usize) -> (r: Result<
        (),
        MetalError,
    >)
        requires
            old(self).wf(),
            !old(self).unfinished(slot) ==> slot < old(self).slots.len() && reused < tokens.len()
                <= old(self).context,
        ensures
            final(self).wf(),
            same_model(*final(self), *old(self)),
            final(self).slots == old(self).slots,
            final(self).prefix == old(self).prefix,
            if old(self).unfinished(slot) {
                r == Err::<(), MetalError>(MetalError::Model(Fault::Unfinished)) && final(self).pending
                    == old(self).pending
            } else {
                r is Ok && jobs(final(self).pending@) == jobs(old(self).pending@).push(
                    Job {
                        slot,
                        tokens: tokens@,
                        offset: reused as int,
                        work: tokens.len() - reused,
                    },
                )
            },
    {
        if self.has_pending(slot) {
            return Err(MetalError::Model(Fault::Unfinished));
        }
        let work: usize = tokens.len() - reused;
        let ghost before = self.pending@;
        self.pending.push(Pending { slot, work, tokens, offset: reused });
        proof {
            assert(jobs(self.pending@) =~= jobs(before).push(self.pending@.last()@));
            assert forall|i: int| 0 <= i < self.pending.len() implies (#[trigger] self.pending[i]).wf(
                self.slots.len() as int,
                self.context,
            ) by {
                if i < before.len() {
                    assert(self.pending[i] == before[i]);
                }
            }
        }
        Ok(())
    }

    /// Drop the prompt of a slot and clear the slot. Its pages come back.
    pub fn prefill_abort(&mut self, slot: usize) -> (r: Option<Vec<u32>>)
        requires
            old(self).wf(),
        ensures
            final(self).wf(),
            same_model(*final(self), *old(self)),
            final(self).prefix == old(self).prefix,
            jobs(final(self).pending@) == kept(jobs(old(self).pending@), |j: Job| j.slot == slot),
            if slot < old(self).slots.len() {
                &&& r matches Some(list)
                &&& list@ == old(self).slots[slot as int].blocks@
                &&& final(self).slots@ == old(self).slots@.update(
                    slot as int,
                    final(self).slots[slot as int],
                )
                &&& cleared(final(self).slots[slot as int])
            } else {
                r is None && final(self).slots == old(self).slots
            },
    {
        let ghost gone = |j: Job| j.slot == slot;
        let ghost total = kept(jobs(self.pending@), gone);
        let ghost start = *self;
        let mut i: usize = 0;
        assert(jobs(self.pending@).take(0) + kept(jobs(self.pending@).skip(0), gone) =~= total) by {
            assert(jobs(self.pending@).skip(0) =~= jobs(self.pending@));
        }
        while i < self.pending.len()
            invariant
                i <= self.pending.len(),
                self.wf(),
                same_model(*self, start),
                self.prefix == start.prefix,
                self.slots == start.slots,
                gone == (|j: Job| j.slot == slot),
                jobs(self.pending@).take(i as int) + kept(jobs(self.pending@).skip(i as int), gone)
                    == total,
            decreases self.pending.len() - i,
        {
            let ghost before = self.pending@;
            let ghost all = jobs(before);
            proof {
                assert(all.skip(i as int)[0] == before[i as int]@);
                assert(all.skip(i as int).drop_first() =~= all.skip(i + 1));
            }
            if self.pending[i].slot == slot {
                let _ = self.pending.remove(i);
                proof {
                    let now = jobs(self.pending@);
                    assert(now.take(i as int) =~= all.take(i as int));
                    assert(now.skip(i as int) =~= all.skip(i + 1));
                    lemma_removed(before, self.pending@, i as int, self.slots.len() as int, self.context);
                }
            } else {
                proof {
                    assert(all.take(i + 1) + kept(all.skip(i + 1), gone) =~= all.take(i as int) + (seq![
                        all[i as int],
                    ] + kept(all.skip(i + 1), gone)));
                }
                i = i + 1;
            }
        }
        proof {
            let now = jobs(self.pending@);
            assert(now.skip(i as int) =~= Seq::<Job>::empty());
            assert(now.take(i as int) + Seq::<Job>::empty() =~= now);
        }
        if slot < self.slots.len() {
            Some(self.clear_slot(slot))
        } else {
            None
        }
    }

    pub open spec fn decodes_valid(&self, decodes: Seq<Row>) -> bool {
        &&& decodes.len() <= self.slots.len()
        &&& forall|i: int| 0 <= i < decodes.len() ==> !self.unfinished((#[trigger] decodes[i]).slot)
    }

    /// The rows and outputs of a tick that runs every decode row and the
    /// granted part of each prompt.
    pub fn mixed(&self, decodes: Vec<Row>, grants: &Vec<usize>) -> (r: Result<Mixed, MetalError>)
        requires
            self.wf(),
            grants_fit(jobs(self.pending@), grants@),
        ensures
            if self.decodes_valid(decodes@) {
                let n = self.pending.len() as int;
                &&& r matches Ok(m)
                &&& m.rows@ == mixed_rows(decodes@, jobs(self.pending@), grants@, n)
                &&& m.complete@ == completed(decodes@, jobs(self.pending@), grants@, n)
                &&& m.outputs@ == mixed_outputs(decodes.len() as int, m.complete@)
            } else {
                r == Err::<Mixed, MetalError>(MetalError::Model(Fault::Decodes))
            },
    {
        if decodes.len() > self.slots.len() {
            return Err(MetalError::Model(Fault::Decodes));
        }
        let count: usize = decodes.len();
        let mut d: usize = 0;
        let mut outputs: Vec<usize> = Vec::new();
        while d < count
            invariant
                d <= count,
                count == decodes.len(),
                forall|i: int| 0 <= i < d ==> !self.unfinished((#[trigger] decodes[i]).slot),
                outputs@ == Seq::new(d as nat, |i: int| i as usize),
            decreases count - d,
        {
            if self.has_pending(decodes[d].slot) {
                return Err(MetalError::Model(Fault::Decodes));
            }
            outputs.push(d);
            assert(outputs@ =~= Seq::new((d + 1) as nat, |i: int| i as usize));
            d = d + 1;
        }
        let ghost given = decodes@;
        let ghost all = jobs(self.pending@);
        let mut rows = decodes;
        let mut complete: Vec<(usize, usize, usize)> = Vec::new();
        let mut k: usize = 0;
        assert(complete@.map_values(|d: (usize, usize, usize)| d.1) =~= Seq::<usize>::empty());
        while k < self.pending.len()
            invariant
                k <= self.pending.len(),
                self.wf(),
                all == jobs(self.pending@),
                grants_fit(all, grants@),
                count == given.len(),
                rows@ == mixed_rows(given, all, grants@, k as int),
                complete@ == completed(given, all, grants@, k as int),
                outputs@ == mixed_outputs(count as int, complete@),
            decreases self.pending.len() - k,
        {
            let p = &self.pending[k];
            assert(p.wf(self.slots.len() as int, self.context));
            assert(all[k as int] == p@);
            let n: usize = grants[k];
            let ghost before = rows@;
            let mut i: usize = 0;
            assert(rows@ =~= before + prompt_rows(p@, 0));
            while i < n
                invariant
                    i <= n,
                    p.offset + n <= p.tokens.len() <= 32768,
                    rows@ == before + prompt_rows(p@, i as int),
                decreases n - i,
            {
                let at: usize = p.offset + i;
                rows.push(Row { slot: p.slot, token: p.tokens[at], position: at as u32 });
                assert(rows@ =~= before + prompt_rows(p@, i + 1));
                i = i + 1;
            }
            let ghost done = complete@;
            if n > 0 && p.offset + n == p.tokens.len() {
                complete.push((p.slot, rows.len() - 1, p.tokens.len()));
                outputs.push(rows.len() - 1);
                assert(outputs@ =~= mixed_outputs(count as int, complete@));
            }
            k = k + 1;
        }
        Ok(Mixed { rows, outputs, complete })
    }

    /// Move every prompt past its granted rows and drop the finished ones.
    pub fn advance(&mut self, grants: &Vec<usize>)
        requires
            old(self).wf(),
            grants_fit(jobs(old(self).pending@), grants@),
        ensures
            final(self).wf(),
            same_model(*final(self), *old(self)),
            final(self).slots == old(self).slots,
            final(self).prefix == old(self).prefix,
            jobs(final(self).pending@) == kept(
                moved(jobs(old(self).pending@), grants@),
                |j: Job| j.offset >= j.tokens.len(),
            ),
    {
        let ghost start = jobs(self.pending@);
        let ghost done = |j: Job| j.offset >= j.tokens.len();
        let ghost total = kept(moved(start, grants@), done);
        let ghost first = *self;
        let mut next: usize = 0;
        let mut i: usize = 0;
        assert(moved(start, grants@).skip(0) =~= moved(start, grants@));
        assert(jobs(self.pending@).take(0) =~= Seq::<Job>::empty());
        assert(Seq::<Job>::empty() + kept(moved(start, grants@), done) =~= total);
        assert(jobs(self.pending@).skip(0) =~= start.skip(0));
        while i < self.pending.len()
            invariant
                i <= self.pending.len(),
                next + self.pending.len() - i == start.len(),
                next <= start.len() == grants.len(),
                self.wf(),
                same_model(*self, first),
                self.slots == first.slots,
                self.prefix == first.prefix,
                grants_fit(start, grants@),
                done == (|j: Job| j.offset >= j.tokens.len()),
                jobs(self.pending@).skip(i as int) == start.skip(next as int),
                jobs(self.pending@).take(i as int) + kept(
                    moved(start, grants@).skip(next as int),
                    done,
                ) == total,
            decreases start.len() - next,
        {
            let ghost before = self.pending@;
            let ghost all = jobs(before);
            let ghost after = moved(start, grants@);
            proof {
                assert(all.skip(i as int)[0] == start.skip(next as int)[0]);
                assert(before[i as int]@ == start[next as int]);
                assert(before[i as int].wf(self.slots.len() as int, self.context));
                assert(after.skip(next as int)[0] == after[next as int]);
                assert(after.skip(next as int).drop_first() =~= after.skip(next + 1));
            }
            let at: usize = self.pending[i].offset + grants[next];
            if at >= self.pending[i].tokens.len() {
                let _ = self.pending.remove(i);
                proof {
                    let now = jobs(self.pending@);
                    assert(now.take(i as int) =~= all.take(i as int));
                    assert(now.skip(i as int) =~= all.skip(i as int).drop_first());
                    assert(now.skip(i as int) =~= start.skip(next + 1));
                    lemma_removed(before, self.pending@, i as int, self.slots.len() as int, self.context);
                }
            } else {
                self.pending[i].offset = at;
                proof {
                    let now = jobs(self.pending@);
                    assert(now[i as int] == after[next as int]);
                    assert(now.take(i + 1) =~= all.take(i as int).push(after[next as int]));
                    assert(now.skip(i + 1) =~= all.skip(i as int).drop_first());
                    assert(now.skip(i + 1) =~= start.skip(next + 1));
                    assert(now.take(i + 1) + kept(after.skip(next + 1), done) =~= all.take(i as int) + (
                    seq![after[next as int]] + kept(after.skip(next + 1), done)));
                    assert forall|k: int| 0 <= k < self.pending.len() implies (
                    #[trigger] self.pending[k]).wf(self.slots.len() as int, self.context) by {
                        assert(before[k].wf(self.slots.len() as int, self.context));
                    }
                }
                i = i + 1;
            }
            next = next + 1;
        }
        proof {
            let now = jobs(self.pending@);
            assert(moved(start, grants@).skip(next as int) =~= Seq::<Job>::empty());
            assert(now.take(i as int) + Seq::<Job>::empty() =~= now);
        }
    }
}

proof fn lemma_removed(before: Seq<Pending>, after: Seq<Pending>, i: int, slots: int, context: usize)
    requires
        0 <= i < before.len(),
        after == before.remove(i),
        forall|k: int| 0 <= k < before.len() ==> (#[trigger] before[k]).wf(slots, context),
    ensures
        forall|k: int| 0 <= k < after.len() ==> (#[trigger] after[k]).wf(slots, context),
{
    assert forall|k: int| 0 <= k < after.len() implies (#[trigger] after[k]).wf(slots, context) by {
        if k < i {
            assert(after[k] == before[k]);
        } else {
            assert(after[k] == before[k + 1]);
        }
    }
}

/// Rows of a decode batch: one for every slot that is past its first
/// position.
pub open spec fn batch(tokens: Seq<u32>, positions: Seq<u32>, n: int) -> Seq<Row>
    decreases n,
{
    if n <= 0 {
        Seq::empty()
    } else {
        let before = batch(tokens, positions, n - 1);
        if positions[n - 1] != 0 {
            before.push(
                Row { slot: (n - 1) as usize, token: tokens[n - 1], position: positions[n - 1] },
            )
        } else {
            before
        }
    }
}

/// Logits per slot of the first `n`: zeros where the slot did not run.
pub open spec fn spread(positions: Seq<u32>, logits: Seq<u32>, n: int) -> Seq<u32>
    decreases n,
{
    if n <= 0 {
        Seq::empty()
    } else {
        let k = batch(positions, positions, n - 1).len() as int;
        spread(positions, logits, n - 1) + if positions[n - 1] != 0 {
            logits.subrange(k * 131072, (k + 1) * 131072)
        } else {
            Seq::new(131072, |i: int| 0u32)
        }
    }
}

fn push_span(out: &mut Vec<u32>, list: &Vec<u32>, from: usize, n: usize)
    requires
        from + n <= list.len(),
    ensures
        final(out)@ == old(out)@ + list@.subrange(from as int, from + n),
{
    let ghost before = out@;
    let mut i: usize = 0;
    assert(out@ =~= before + list@.subrange(from as int, from as int));
    while i < n
        invariant
            i <= n,
            from + n <= list.len(),
            out@ == before + list@.subrange(from as int, from + i),
        decreases n - i,
    {
        out.push(list[from + i]);
        assert(out@ =~= before + list@.subrange(from as int, from + i + 1));
        i = i + 1;
    }
}

fn push_zeros(out: &mut Vec<u32>, n: usize)
    ensures
        final(out)@ == old(out)@ + Seq::new(n as nat, |i: int| 0u32),
{
    let ghost before = out@;
    let mut i: usize = 0;
    assert(out@ =~= before + Seq::new(0, |i: int| 0u32));
    while i < n
        invariant
            i <= n,
            out@ == before + Seq::new(i as nat, |i: int| 0u32),
        decreases n - i,
    {
        out.push(0);
        assert(out@ =~= before + Seq::new((i + 1) as nat, |i: int| 0u32));
        i = i + 1;
    }
}

proof fn lemma_batch(a: Seq<u32>, b: Seq<u32>, positions: Seq<u32>, n: int)
    requires
        0 <= n <= positions.len(),
    ensures
        batch(a, positions, n).len() == batch(b, positions, n).len(),
        batch(a, positions, n).len() <= n,
    decreases n,
{
    if n > 0 {
        lemma_batch(a, b, positions, n - 1);
    }
}

impl Nemotron {
    pub fn batch_rows(&self, tokens: &Vec<u32>, positions: &Vec<u32>) -> (r: Result<
        Vec<Row>,
        MetalError,
    >)
        ensures
            if tokens.len() != positions.len() || tokens.len() > self.slots.len() {
                r == Err::<Vec<Row>, MetalError>(MetalError::Model(Fault::Batch))
            } else {
                r matches Ok(rows) && rows@ == batch(tokens@, positions@, tokens.len() as int)
            },
    {
        if tokens.len() != positions.len() || tokens.len() > self.slots.len() {
            return Err(MetalError::Model(Fault::Batch));
        }
        let mut rows: Vec<Row> = Vec::new();
        let mut i: usize = 0;
        while i < tokens.len()
            invariant
                i <= tokens.len() == positions.len(),
                rows@ == batch(tokens@, positions@, i as int),
            decreases tokens.len() - i,
        {
            if positions[i] != 0 {
                rows.push(Row { slot: i, token: tokens[i], position: positions[i] });
            }
            i = i + 1;
        }
        Ok(rows)
    }

    /// The logits of a batch, slot by slot.
    pub fn batch_logits(&self, positions: &Vec<u32>, logits: &Vec<u32>) -> (r: Vec<u32>)
        requires
            self.wf(),
            positions.len() <= self.slots.len(),
            logits.len() == batch(positions@, positions@, positions.len() as int).len() * 131072,
        ensures
            r@ == spread(positions@, logits@, positions.len() as int),
    {
        let mut out: Vec<u32> = Vec::new();
        let mut k: usize = 0;
        let mut i: usize = 0;
        let ghost all = batch(positions@, positions@, positions.len() as int).len();
        proof {
            lemma_batch(positions@, positions@, positions@, positions.len() as int);
        }
        while i < positions.len()
            invariant
                i <= positions.len() <= 64,
                k == batch(positions@, positions@, i as int).len(),
                k <= i,
                all == batch(positions@, positions@, positions.len() as int).len(),
                logits.len() == all * 131072,
                out@ == spread(positions@, logits@, i as int),
            decreases positions.len() - i,
        {
            if positions[i] != 0 {
                proof {
                    lemma_batch_grows(positions@, i + 1, positions.len() as int);
                }
                push_span(&mut out, logits, k * VOCAB, VOCAB);
                k = k + 1;
            } else {
                push_zeros(&mut out, VOCAB);
            }
            i = i + 1;
        }
        out
    }
}

proof fn lemma_batch_grows(positions: Seq<u32>, a: int, b: int)
    requires
        0 <= a <= b <= positions.len(),
    ensures
        batch(positions, positions, a).len() <= batch(positions, positions, b).len(),
    decreases b - a,
{
    if a < b {
        lemma_batch_grows(positions, a, b - 1);
    }
}

/// The logits of a mixed tick: those of the decode rows, then one row per
/// completed prompt with its slot and length.
pub fn split_logits(logits: &Vec<u32>, decodes: usize, complete: &Vec<(usize, usize, usize)>) -> (r: (
    Vec<u32>,
    Vec<(usize, Vec<u32>, usize)>,
))
    requires
        logits.len() == (decodes + complete.len()) * 131072,
    ensures
        r.0@ == logits@.take(decodes * 131072),
        r.1.len() == complete.len(),
        forall|i: int|
            0 <= i < complete.len() ==> {
                &&& (#[trigger] r.1[i]).0 == complete[i].0
                &&& r.1[i].1@ == logits@.subrange((decodes + i) * 131072, (decodes + i + 1) * 131072)
                &&& r.1[i].2 == complete[i].2
            },
{
    let mut first: Vec<u32> = Vec::new();
    push_span(&mut first, logits, 0, decodes * VOCAB);
    assert(first@ =~= logits@.take(decodes * 131072));
    let mut done: Vec<(usize, Vec<u32>, usize)> = Vec::new();
    let mut i: usize = 0;
    while i < complete.len()
        invariant
            i <= complete.len(),
            logits.len() == (decodes + complete.len()) * 131072,
            done.len() == i,
            forall|j: int|
                0 <= j < i ==> {
                    &&& (#[trigger] done[j]).0 == complete[j].0
                    &&& done[j].1@ == logits@.subrange(
                        (decodes + j) * 131072,
                        (decodes + j + 1) * 131072,
                    )
                    &&& done[j].2 == complete[j].2
                },
        decreases complete.len() - i,
    {
        let mut row: Vec<u32> = Vec::new();
        push_span(&mut row, logits, (decodes + i) * VOCAB, VOCAB);
        assert(row@ =~= logits@.subrange((decodes + i) * 131072, (decodes + i + 1) * 131072));
        done.push((complete[i].0, row, complete[i].2));
        i = i + 1;
    }
    (first, done)
}

} // verus!
