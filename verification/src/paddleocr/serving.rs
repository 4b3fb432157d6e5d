//! Text prompts of the decoder and its projections.
use vstd::prelude::*;
use crate::arith::{ceil_div, div_ceil, BLOCK_TOKENS, ONE};
use crate::error::{Fault, MetalError};
use crate::paddleocr::graph::VOCAB;
use crate::paddleocr::load::PaddleOcr;
use crate::paddleocr::waves::{blank, same_model, sequences, Sequence};
use crate::program::{kernel, list3, list4, list5, Buffer, Program, Step, Weight};
use crate::tables::{copied_tokens, first_tokens};

verus! {

/// One projection: a vector kernel for fewer than eight rows, tiles from
/// there on. Operands stay in single precision either way.
pub open spec fn projected(w: Weight, x: Buffer, y: Buffer, rows: int) -> Step {
    if rows < 8 {
        kernel(
            "linear"@,
            seq![w.buffer, x, y],
            seq![w.k as u32, w.n as u32, rows as u32, w.ty, ONE],
            (ceil_div(w.n as int, 4), rows, 1),
            128,
        )
    } else {
        kernel(
            "vis_bmm32"@,
            seq![w.buffer, x, y, w.buffer],
            seq![w.k as u32, w.n as u32, rows as u32, 0u32],
            (ceil_div(w.n as int, 64), ceil_div(rows, 32), 1),
            128,
        )
    }
}

pub fn project(cmd: &mut Program, w: Weight, x: Buffer, y: Buffer, rows: usize)
    ensures
        final(cmd)@ == old(cmd)@.push(projected(w, x, y, rows as int)),
{
    if rows < 8 {
        cmd.dispatch(
            "linear",
            list3(w.buffer, x, y),
            list5(w.k as u32, w.n as u32, rows as u32, w.ty, ONE),
            (div_ceil(w.n, 4), rows, 1),
            128,
        );
    } else {
        cmd.dispatch(
            "vis_bmm32",
            list4(w.buffer, x, y, w.buffer),
            list4(w.k as u32, w.n as u32, rows as u32, 0),
            (div_ceil(w.n, 64), div_ceil(rows, 32), 1),
            128,
        );
    }
}

impl PaddleOcr {
    pub open spec fn prompt_valid(&self, slot: usize, tokens: Seq<u32>) -> bool {
        &&& slot < self.slots.len()
        &&& 0 < tokens.len() <= self.context
        &&& forall|i: int| 0 <= i < tokens.len() ==> #[trigger] tokens[i] < VOCAB
    }

    /// Whether a text prompt can be admitted.
    pub fn check_prompt(&self, slot: usize, tokens: &Vec<u32>) -> (r: Result<(), MetalError>)
        ensures
            r == if self.prompt_valid(slot, tokens@) {
                Ok::<(), MetalError>(())
            } else {
                Err::<(), MetalError>(MetalError::Model(Fault::Prompt))
            },
    {
        if slot >= self.slots.len() || tokens.len() == 0 || tokens.len() > self.context {
            return Err(MetalError::Model(Fault::Prompt));
        }
        let mut i: usize = 0;
        while i < tokens.len()
            invariant
                i <= tokens.len(),
                forall|j: int| 0 <= j < i ==> #[trigger] tokens[j] < VOCAB,
            decreases tokens.len() - i,
        {
            if tokens[i] as usize >= VOCAB {
                return Err(MetalError::Model(Fault::Prompt));
            }
            i = i + 1;
        }
        Ok(())
    }

    /// Start a text prompt on the shared pages that the prefix index found
    /// for it. The pages that its slot held come back.
    pub fn prepare(&mut self, slot: usize, tokens: &Vec<u32>, shared: &Vec<u32>) -> (r: Result<
        (usize, Vec<u32>),
        MetalError,
    >)
        requires
            old(self).wf(),
            old(self).prompt_valid(slot, tokens@) ==> shared.len() * 16 <= tokens.len(),
        ensures
            final(self).wf(),
            same_model(*final(self), *old(self)),
            final(self).pending == old(self).pending,
            final(self).encoding == old(self).encoding,
            if old(self).prompt_valid(slot, tokens@) {
                let before = sequences(old(self).slots@);
                &&& r matches Ok((reused, freed))
                &&& reused == shared.len() * 16
                &&& freed@ == before[slot as int].blocks
                &&& sequences(final(self).slots@) == before.update(
                    slot as int,
                    Sequence {
                        blocks: shared@,
                        history: tokens@.take(reused as int),
                        reused: reused as int,
                        mm: None,
                    },
                )
            } else {
                &&& r == Err::<(usize, Vec<u32>), MetalError>(MetalError::Model(Fault::Prompt))
                &&& final(self).slots == old(self).slots
            },
    {
        match self.check_prompt(slot, tokens) {
            Err(e) => Err(e),
            Ok(_) => {
                let reused: usize = shared.len() * BLOCK_TOKENS;
                let ghost start = sequences(self.slots@);
                let freed = self.blank_slot(slot);
                let ghost before = self.slots@;
                self.slots[slot].blocks = copied_tokens(shared);
                self.slots[slot].history = first_tokens(tokens, reused);
                self.slots[slot].reused = reused;
                proof {
                    assert(sequences(before)[slot as int] == blank());
                    let seat = Sequence {
                        blocks: shared@,
                        history: tokens@.take(reused as int),
                        reused: reused as int,
                        mm: None,
                    };
                    assert(before[slot as int]@ == blank());
                    assert(self.slots[slot as int]@ == seat);
                    let now = sequences(self.slots@);
                    assert forall|i: int| 0 <= i < now.len() implies #[trigger] now[i] == start.update(
                        slot as int,
                        seat,
                    )[i] by {
                        assert(sequences(before)[i] == start.update(slot as int, blank())[i]);
                        if i != slot {
                            assert(self.slots[i] == before[i]);
                        }
                    }
                    assert(now =~= start.update(slot as int, seat));
                    assert forall|i: int| 0 <= i < self.slots.len() implies (
                    #[trigger] self.slots[i]).history.len() <= self.context by {
                        assert(before[i].history.len() <= self.context);
                    }
                }
                Ok((reused, freed))
            },
        }
    }

    /// What the prefix index learns of a finished sequence: its tokens and
    /// pages. Rows of an image never enter it, since their tokens do not say
    /// what they hold.
    pub fn publish(&self, slot: usize) -> (r: Option<(Vec<u32>, Vec<u32>)>)
        requires
            slot < self.slots.len(),
        ensures
            match r {
                Some((history, blocks)) => {
                    &&& self.slots[slot as int].mm is None
                    &&& history@ == self.slots[slot as int].history@
                    &&& blocks@ == self.slots[slot as int].blocks@
                },
                None => self.slots[slot as int].mm is Some,
            },
    {
        let s = &self.slots[slot];
        if s.mm.is_some() {
            None
        } else {
            Some((copied_tokens(&s.history), copied_tokens(&s.blocks)))
        }
    }
}

} // verus!
