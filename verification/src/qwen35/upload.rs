//! The tables that a tick uploads besides its plan.
use vstd::prelude::*;
use crate::program::{push_write, written, Buffer, Write};
use crate::qwen35::graph::MAX_CONTEXT;
use crate::rows::{tokens, Row};
use crate::qwen35::plan::{slots_valid, Plan};
use crate::qwen35::state::{Qwen35, Slot};
use crate::qwen35::tick::{plan_wf, row_limit};
use crate::tables::{narrow, narrowed, padded, push_padded, row_ids, row_meta, row_places};

verus! {

/// Rotary coordinates of a row. After an image they differ from its index.
pub open spec fn rope(slots: Seq<Slot>, slot: int, position: int) -> Seq<u32> {
    match slots[slot].mm {
        None => Seq::new(4, |i: int| position as u32),
        Some(m) => m.position_of(position),
    }
}

/// The page table of the first `n` slots.
pub open spec fn page_table(slots: Seq<Slot>, stride: int, n: int) -> Seq<u32>
    decreases n,
{
    if n <= 0 {
        Seq::empty()
    } else {
        page_table(slots, stride, n - 1) + padded(slots[n - 1].blocks@, stride)
    }
}

pub open spec fn rope_table(slots: Seq<Slot>, rows: Seq<Row>) -> Seq<u32>
    decreases rows.len(),
{
    if rows.len() == 0 {
        Seq::empty()
    } else {
        rope_table(slots, rows.drop_last()) + rope(
            slots,
            rows.last().slot as int,
            rows.last().position as int,
        )
    }
}

pub open spec fn limit_table(slots: Seq<Slot>, rows: Seq<Row>) -> Seq<u32> {
    rows.map_values(|r: Row| row_limit(slots, r))
}

#[derive(Debug)]
pub struct Uploads {
    pub ids: Vec<u32>,
    pub meta: Vec<u32>,
    pub outputs: Vec<u32>,
    pub pages: Vec<u32>,
    pub mrope: Vec<u32>,
    pub limits: Vec<u32>,
}

impl Qwen35 {
    pub fn rope_position(&self, slot: usize, position: usize) -> (r: [u32; 4])
        requires
            self.wf(),
            slot < self.slots.len(),
            position <= MAX_CONTEXT,
        ensures
            r@ == rope(self.slots@, slot as int, position as int),
    {
        assert(self.slots[slot as int].wf(&self.graph));
        let n: u32 = match &self.slots[slot].mm {
            None => position as u32,
            Some(m) => {
                if position < m.positions.len() {
                    return m.positions[position];
                }
                m.final_position + (position - m.ids.len()) as u32
            },
        };
        let r = [n, n, n, n];
        assert(r@ =~= rope(self.slots@, slot as int, position as int));
        r
    }

    /// The page table of every slot, padded to the context.
    pub fn pages(&self) -> (r: Vec<u32>)
        requires
            self.wf(),
        ensures
            r@ == page_table(self.slots@, self.graph.page_stride as int, self.slots.len() as int),
    {
        let stride: usize = self.graph.page_stride;
        let mut out: Vec<u32> = Vec::new();
        let mut i: usize = 0;
        while i < self.slots.len()
            invariant
                i <= self.slots.len(),
                stride == self.graph.page_stride,
                out@ == page_table(self.slots@, stride as int, i as int),
            decreases self.slots.len() - i,
        {
            push_padded(&mut out, &self.slots[i].blocks, stride);
            i = i + 1;
        }
        out
    }

    pub fn rope_rows(&self, rows: &Vec<Row>) -> (r: Vec<u32>)
        requires
            self.wf(),
            slots_valid(self.slots@, rows@),
            forall|i: int| 0 <= i < rows.len() ==> (#[trigger] rows[i]).position < MAX_CONTEXT,
        ensures
            r@ == rope_table(self.slots@, rows@),
    {
        let mut out: Vec<u32> = Vec::new();
        let mut i: usize = 0;
        assert(rows@.take(0) =~= Seq::<Row>::empty());
        while i < rows.len()
            invariant
                i <= rows.len(),
                self.wf(),
                slots_valid(self.slots@, rows@),
                forall|i: int| 0 <= i < rows.len() ==> (#[trigger] rows[i]).position < MAX_CONTEXT,
                out@ == rope_table(self.slots@, rows@.take(i as int)),
            decreases rows.len() - i,
        {
            let row = rows[i];
            let four = self.rope_position(row.slot, row.position as usize);
            let ghost before = out@;
            out.push(four[0]);
            out.push(four[1]);
            out.push(four[2]);
            out.push(four[3]);
            proof {
                assert(rows@.take(i + 1).drop_last() =~= rows@.take(i as int));
                assert(rows@.take(i + 1).last() == row);
                assert(out@ =~= before + four@);
            }
            i = i + 1;
        }
        assert(rows@.take(rows.len() as int) =~= rows@);
        out
    }

    /// Everything but the plan's own tables. Page tables are read afresh,
    /// since other slots may have grown since the plan was made.
    pub fn uploads(&self, plan: &Plan) -> (r: Uploads)
        requires
            self.wf(),
            plan_wf(self.slots@, *plan),
        ensures
            r.ids@ == tokens(plan.rows@),
            r.meta@ == row_meta(plan.rows@),
            r.outputs@ == narrow(plan.selected@),
            r.pages@ == page_table(
                self.slots@,
                self.graph.page_stride as int,
                self.slots.len() as int,
            ),
            r.mrope@ == rope_table(self.slots@, plan.rows@),
            r.limits@ == limit_table(self.slots@, plan.rows@),
    {
        let rows = &plan.rows;
        let mut limits: Vec<u32> = Vec::new();
        let mut i: usize = 0;
        while i < rows.len()
            invariant
                i <= rows.len(),
                rows == plan.rows,
                self.wf(),
                plan_wf(self.slots@, *plan),
                limits@ == limit_table(self.slots@, rows@).take(i as int),
            decreases rows.len() - i,
        {
            limits.push(self.limit(rows[i]));
            assert(limits@ =~= limit_table(self.slots@, rows@).take(i + 1));
            i = i + 1;
        }
        assert(limits@ =~= limit_table(self.slots@, rows@));
        Uploads {
            ids: row_ids(rows),
            meta: row_places(rows),
            outputs: narrowed(&plan.selected),
            pages: self.pages(),
            mrope: self.rope_rows(rows),
            limits,
        }
    }

    /// What is written before a tick runs, and where.
    pub open spec fn tick_writes(&self, plan: Plan) -> Seq<(Buffer, Seq<u32>)> {
        let s = self.graph.scratch;
        let rows = plan.rows@;
        seq![
            (s.ids, tokens(rows)),
            (s.meta, row_meta(rows)),
            (s.outputs, narrow(plan.selected@)),
            (
                s.pages,
                page_table(self.slots@, self.graph.page_stride as int, self.slots.len() as int),
            ),
            (s.spans, plan.spans@),
            (s.chunks, plan.chunks@),
            (s.bounds, plan.bounds@),
            (s.attn_tiles, plan.tiles@),
            (s.decode_rows, plan.decode_rows@),
            (s.long_decode_tiles, plan.long_decode_tiles@),
            (s.checkpoint_rows, plan.checkpoint_rows@),
            (s.checkpoint_spans, plan.checkpoint_spans@),
            (s.mrope, rope_table(self.slots@, rows)),
            (s.limits, limit_table(self.slots@, rows)),
        ]
    }

    /// The writes of a planned tick.
    pub fn writes(&self, plan: &Plan) -> (r: Vec<Write>)
        requires
            self.wf(),
            plan_wf(self.slots@, *plan),
        ensures
            written(r@) == self.tick_writes(*plan),
    {
        let u = self.uploads(plan);
        let s = &self.graph.scratch;
        let mut out: Vec<Write> = Vec::new();
        assert(written(out@) =~= Seq::empty());
        push_write(&mut out, s.ids, &u.ids);
        push_write(&mut out, s.meta, &u.meta);
        push_write(&mut out, s.outputs, &u.outputs);
        push_write(&mut out, s.pages, &u.pages);
        push_write(&mut out, s.spans, &plan.spans);
        push_write(&mut out, s.chunks, &plan.chunks);
        push_write(&mut out, s.bounds, &plan.bounds);
        push_write(&mut out, s.attn_tiles, &plan.tiles);
        push_write(&mut out, s.decode_rows, &plan.decode_rows);
        push_write(&mut out, s.long_decode_tiles, &plan.long_decode_tiles);
        push_write(&mut out, s.checkpoint_rows, &plan.checkpoint_rows);
        push_write(&mut out, s.checkpoint_spans, &plan.checkpoint_spans);
        push_write(&mut out, s.mrope, &u.mrope);
        push_write(&mut out, s.limits, &u.limits);
        assert(written(out@) =~= self.tick_writes(*plan));
        out
    }
}

} // verus!
