//! The next-token block: one extra attention layer over shared embeddings and
//! head. The draft chain stays on the device between steps.
use vstd::prelude::*;
use crate::arith::{area, ceil_div, div_ceil, groups, groups256, MAX_ROWS, ONE};
use crate::program::{
    kernel, linear, list1, list2, list3, list4, list5, planes as planes_step, Buffer, Plane, Program,
    Route, RowSpan, Step, Weight,
};
use crate::qwen35::attention::Load;
use crate::qwen35::geometry::Geometry;
use crate::qwen35::graph::{layer_shaped, shaped, Graph, Layer, Mixer};
use crate::qwen35::multimodal::{mtp_image_steps, SlotImage};

verus! {

#[derive(Clone, Copy, Debug, PartialEq, Eq, Structural)]
pub struct Mtp {
    pub eh: Weight,
    pub en: Weight,
    pub hn: Weight,
    pub head_norm: Weight,
    pub layer: Layer,
    pub pending: Buffer,
    pub h: Buffer,
    pub concat: Buffer,
    pub drafted: Buffer,
}

impl Mtp {
    pub open spec fn wf(self, g: Geometry) -> bool {
        &&& shaped(self.eh, g.width * 2, g.width as int)
        &&& layer_shaped(g, self.layer)
        &&& self.layer.mixer is Full
    }
}

/// A per-row normalisation of `from` into `to`.
pub open spec fn rms_step(
    name: Seq<char>,
    from: Buffer,
    norm: Weight,
    to: Buffer,
    width: int,
    eps: u32,
    rows: int,
    threads: int,
) -> Step {
    kernel(
        name,
        seq![from, norm.buffer, to],
        seq![width as u32, norm.ty, eps],
        (rows, 1, 1),
        threads,
    )
}

impl Graph {
    /// One plane on the lane of the block: precise for the routed shape.
    pub open spec fn block_plane_steps(
        &self,
        p: Seq<Step>,
        plane: Plane,
        input: Buffer,
        m: usize,
        spans: Seq<RowSpan>,
    ) -> Seq<Step> {
        if self.geometry.is_moe() {
            self.project_steps(p, seq![plane], input, m, self.scratch.gemm, spans)
        } else {
            p.push(linear(plane.weight, input, plane.out, m as int, self.scratch.gemm))
        }
    }

    fn block_plane(
        &self,
        cmd: &mut Program,
        plane: Plane,
        input: Buffer,
        m: usize,
        spans: &Vec<RowSpan>,
    )
        requires
            self.wf(),
            self.bonsai is None,
            1 <= m <= MAX_ROWS,
            plane.weight.k <= 0x1_0000,
            plane.weight.k % 128 == 0,
            plane.weight.n <= 0x80_0000,
        ensures
            final(cmd)@ == self.block_plane_steps(old(cmd)@, plane, input, m, spans@),
    {
        if self.geometry.moe() {
            self.project(cmd, list1(plane), input, m, self.scratch.gemm, spans);
        } else {
            cmd.linear(plane.weight, input, plane.out, m, self.scratch.gemm);
        }
    }

    /// Combine the token embedding with the hidden row and project the pair.
    pub open spec fn mtp_head_steps(
        &self,
        p: Seq<Step>,
        load: Load,
        images: Seq<SlotImage>,
        spans: Seq<RowSpan>,
    ) -> Seq<Step> {
        let d = self.mtp->0;
        let s = self.scratch;
        let width = self.geometry.width;
        let m = load.rows;
        let p = p.push(
            kernel(
                "embed"@,
                seq![self.embedding.buffer, s.ids, s.x],
                seq![width as u32, m as u32, self.embedding.ty, ONE],
                (groups(m as int, width as int), 1, 1),
                256,
            ),
        );
        let p = if load.tiles > 0 {
            mtp_image_steps(p, images, s.meta, s.x, width, m)
        } else {
            p
        };
        let p = p.push(rms_step("rms"@, s.x, d.en, s.norm, width as int, self.eps, m as int, 256)).push(
            rms_step("rms"@, s.delta, d.hn, s.x, width as int, self.eps, m as int, 256),
        ).push(
            kernel(
                "mtp_concat"@,
                seq![s.norm, s.x, d.concat],
                seq![width as u32, m as u32],
                (groups(m as int, width as int), 1, 1),
                256,
            ),
        );
        self.block_plane_steps(p, Plane { weight: d.eh, out: s.x }, d.concat, m, spans).push(
            rms_step("rms"@, s.x, d.layer.norm, s.norm, width as int, self.eps, m as int, 256),
        )
    }

    /// The feed-forward half of the block.
    pub open spec fn mtp_tail_steps(&self, p: Seq<Step>, m: usize, spans: Seq<RowSpan>) -> Seq<Step> {
        let d = self.mtp->0;
        let w = d.layer;
        let s = self.scratch;
        let g = self.geometry;
        let pair = seq![Plane { weight: w.gate, out: s.gate }, Plane { weight: w.up, out: s.up }];
        let p = p.push(
            kernel(
                "residual_rms"@,
                seq![s.x, s.delta, w.post_norm.buffer, s.norm],
                seq![g.width as u32, w.post_norm.ty, self.eps, ONE],
                (m as int, 1, 1),
                256,
            ),
        );
        let p = if g.is_moe() {
            self.project_steps(p, pair, s.norm, m, s.gemm, spans)
        } else {
            p.push(planes_step(Route::Shared, pair, s.norm, m as int, s.gemm, seq![]))
        };
        let p = p.push(
            kernel(
                "swiglu"@,
                seq![s.gate, s.up],
                seq![(m * g.ff) as u32],
                (groups(m as int, g.ff as int), 1, 1),
                256,
            ),
        );
        let p = self.block_plane_steps(p, Plane { weight: w.down, out: s.delta }, s.gate, m, spans);
        let p = if w.moe is Some {
            (self.moe_scratch->0).ffn_steps(p, w.moe->0, s.norm, s.delta, m)
        } else {
            p
        };
        p.push(
            kernel(
                "residual"@,
                seq![s.x, s.delta],
                seq![(m * g.width) as u32, ONE],
                (groups(m as int, g.width as int), 1, 1),
                256,
            ),
        )
    }

    pub open spec fn mtp_block_steps(
        &self,
        p: Seq<Step>,
        load: Load,
        images: Seq<SlotImage>,
        spans: Seq<RowSpan>,
    ) -> Seq<Step> {
        let p = self.mtp_head_steps(p, load, images, spans);
        let p = self.full_attention_steps(p, (self.mtp->0).layer.mixer->Full_0, load, spans);
        self.mtp_tail_steps(p, load.rows, spans)
    }

    fn mtp_head(
        &self,
        cmd: &mut Program,
        load: Load,
        images: &Vec<SlotImage>,
        spans: &Vec<RowSpan>,
    )
        requires
            self.wf(),
            self.mtp is Some,
            self.bonsai is None,
            self.load_wf(load),
        ensures
            final(cmd)@ == self.mtp_head_steps(old(cmd)@, load, images@, spans@),
    {
        let d = self.mtp.unwrap();
        let s = self.scratch;
        let width: usize = self.geometry.width;
        let m: usize = load.rows;
        cmd.dispatch(
            "embed",
            list3(self.embedding.buffer, s.ids, s.x),
            list4(width as u32, m as u32, self.embedding.ty, ONE),
            (groups256(m, width), 1, 1),
            256,
        );
        if load.tiles > 0 {
            crate::qwen35::multimodal::inject_mtp_images(cmd, images, s.meta, s.x, width, m);
        }
        cmd.dispatch(
            "rms",
            list3(s.x, d.en.buffer, s.norm),
            list3(width as u32, d.en.ty, self.eps),
            (m, 1, 1),
            256,
        );
        cmd.dispatch(
            "rms",
            list3(s.delta, d.hn.buffer, s.x),
            list3(width as u32, d.hn.ty, self.eps),
            (m, 1, 1),
            256,
        );
        cmd.dispatch(
            "mtp_concat",
            list3(s.norm, s.x, d.concat),
            list2(width as u32, m as u32),
            (groups256(m, width), 1, 1),
            256,
        );
        self.block_plane(cmd, Plane { weight: d.eh, out: s.x }, d.concat, m, spans);
        cmd.dispatch(
            "rms",
            list3(s.x, d.layer.norm.buffer, s.norm),
            list3(width as u32, d.layer.norm.ty, self.eps),
            (m, 1, 1),
            256,
        );
    }

    fn mtp_tail(&self, cmd: &mut Program, m: usize, spans: &Vec<RowSpan>)
        requires
            self.wf(),
            self.mtp is Some,
            self.bonsai is None,
            1 <= m <= self.row_capacity,
        ensures
            final(cmd)@ == self.mtp_tail_steps(old(cmd)@, m, spans@),
    {
        let d = self.mtp.unwrap();
        let w = d.layer;
        let s = self.scratch;
        let g = self.geometry;
        cmd.dispatch(
            "residual_rms",
            list4(s.x, s.delta, w.post_norm.buffer, s.norm),
            list4(g.width as u32, w.post_norm.ty, self.eps, ONE),
            (m, 1, 1),
            256,
        );
        let pair = list2(Plane { weight: w.gate, out: s.gate }, Plane { weight: w.up, out: s.up });
        if g.moe() {
            self.project(cmd, pair, s.norm, m, s.gemm, spans);
        } else {
            cmd.planes(Route::Shared, pair, s.norm, m, s.gemm, Vec::new());
        }
        cmd.dispatch(
            "swiglu",
            list2(s.gate, s.up),
            list1(area(m, g.ff) as u32),
            (groups256(m, g.ff), 1, 1),
            256,
        );
        self.block_plane(cmd, Plane { weight: w.down, out: s.delta }, s.gate, m, spans);
        if let Some(experts) = w.moe {
            self.moe_scratch.unwrap().moe_ffn(cmd, experts, s.norm, s.delta, m);
        }
        cmd.dispatch(
            "residual",
            list2(s.x, s.delta),
            list2(area(m, g.width) as u32, ONE),
            (groups256(m, g.width), 1, 1),
            256,
        );
    }

    /// The whole block over the rows of a tick or of a draft step.
    pub fn mtp_block(
        &self,
        cmd: &mut Program,
        load: Load,
        images: &Vec<SlotImage>,
        spans: &Vec<RowSpan>,
    )
        requires
            self.wf(),
            self.mtp is Some,
            self.bonsai is None,
            self.load_wf(load),
        ensures
            final(cmd)@ == self.mtp_block_steps(old(cmd)@, load, images@, spans@),
    {
        self.mtp_head(cmd, load, images, spans);
        if let Mixer::Full(attention) = self.mtp.unwrap().layer.mixer {
            self.full_attention(cmd, attention, load, spans);
        }
        self.mtp_tail(cmd, load.rows, spans);
    }

    /// Advance the block's own cache over rows that the target just finished,
    /// then keep each sequence's last hidden row.
    pub open spec fn mtp_catchup_steps(
        &self,
        p: Seq<Step>,
        source: Buffer,
        load: Load,
        images: Seq<SlotImage>,
        spans: Seq<RowSpan>,
    ) -> Seq<Step> {
        if self.mtp is None {
            p
        } else {
            let d = self.mtp->0;
            let s = self.scratch;
            let width = self.geometry.width;
            let m = load.rows;
            let p = p.push(
                kernel(
                    "spec_copy"@,
                    seq![source, d.h],
                    seq![0u32, 0u32, (m * width) as u32],
                    (groups(m as int, width as int), 1, 1),
                    256,
                ),
            ).push(
                kernel(
                    "mtp_hidden"@,
                    seq![d.h, d.pending, s.meta, s.bounds, s.delta],
                    seq![width as u32, m as u32, 0u32],
                    (groups(m as int, width as int), 1, 1),
                    256,
                ),
            );
            self.mtp_block_steps(p, load, images, spans).push(
                kernel(
                    "mtp_publish"@,
                    seq![d.h, d.pending, s.meta, s.bounds, s.checkpoint_rows],
                    seq![width as u32, m as u32],
                    (groups(m as int, width as int), 1, 1),
                    256,
                ),
            )
        }
    }

    pub fn mtp_catchup(
        &self,
        cmd: &mut Program,
        source: Buffer,
        load: Load,
        images: &Vec<SlotImage>,
        spans: &Vec<RowSpan>,
    )
        requires
            self.wf(),
            self.bonsai is Some ==> self.mtp is None,
            self.load_wf(load),
        ensures
            final(cmd)@ == self.mtp_catchup_steps(old(cmd)@, source, load, images@, spans@),
    {
        if self.mtp.is_none() {
            return;
        }
        let d = self.mtp.unwrap();
        let s = self.scratch;
        let width: usize = self.geometry.width;
        let m: usize = load.rows;
        cmd.dispatch(
            "spec_copy",
            list2(source, d.h),
            list3(0, 0, area(m, width) as u32),
            (groups256(m, width), 1, 1),
            256,
        );
        cmd.dispatch(
            "mtp_hidden",
            list5(d.h, d.pending, s.meta, s.bounds, s.delta),
            list3(width as u32, m as u32, 0),
            (groups256(m, width), 1, 1),
            256,
        );
        self.mtp_block(cmd, load, images, spans);
        cmd.dispatch(
            "mtp_publish",
            list5(d.h, d.pending, s.meta, s.bounds, s.checkpoint_rows),
            list2(width as u32, m as u32),
            (groups256(m, width), 1, 1),
            256,
        );
    }

    /// One draft step: block, head, argmax, advance.
    pub open spec fn mtp_step_steps(&self, p: Seq<Step>, load: Load, step: usize, k: usize) -> Seq<Step> {
        let d = self.mtp->0;
        let s = self.scratch;
        let n = load.rows;
        let p = self.mtp_block_steps(p, load, Seq::empty(), Seq::empty()).push(
            rms_step(
                "rms"@,
                s.x,
                d.head_norm,
                s.delta,
                self.geometry.width as int,
                self.eps,
                n as int,
                256,
            ),
        );
        self.block_plane_steps(
            p,
            Plane { weight: self.head, out: s.logits },
            s.delta,
            n,
            Seq::empty(),
        ).push(
            kernel(
                "spec_argmax"@,
                seq![s.logits, s.ids],
                seq![self.vocab as u32],
                (n as int, 1, 1),
                256,
            ),
        ).push(
            kernel(
                "mtp_advance"@,
                seq![s.ids, s.meta, d.drafted, s.mrope, s.limits],
                seq![n as u32, step as u32, k as u32],
                (ceil_div(n as int, 256), 1, 1),
                256,
            ),
        )
    }

    pub open spec fn mtp_chain_steps(&self, p: Seq<Step>, load: Load, steps: nat, k: usize) -> Seq<Step>
        decreases steps,
    {
        if steps == 0 {
            p
        } else {
            self.mtp_step_steps(
                self.mtp_chain_steps(p, load, (steps - 1) as nat, k),
                load,
                (steps - 1) as usize,
                k,
            )
        }
    }

    pub open spec fn mtp_draft_steps(&self, load: Load, k: usize) -> Seq<Step> {
        let d = self.mtp->0;
        let s = self.scratch;
        let width = self.geometry.width;
        let n = load.rows;
        self.mtp_chain_steps(
            seq![
                kernel(
                    "mtp_hidden"@,
                    seq![d.h, d.pending, s.meta, s.bounds, s.delta],
                    seq![width as u32, n as u32, 1u32],
                    (groups(n as int, width as int), 1, 1),
                    256,
                ),
            ],
            load,
            k as nat,
            k,
        )
    }

    fn mtp_step(&self, cmd: &mut Program, load: Load, step: usize, k: usize)
        requires
            self.wf(),
            self.mtp is Some,
            self.bonsai is None,
            self.load_wf(load),
            load.tiles == 0,
        ensures
            final(cmd)@ == self.mtp_step_steps(old(cmd)@, load, step, k),
    {
        let d = self.mtp.unwrap();
        let s = self.scratch;
        let n: usize = load.rows;
        let none: Vec<RowSpan> = Vec::new();
        let images: Vec<SlotImage> = Vec::new();
        self.mtp_block(cmd, load, &images, &none);
        cmd.dispatch(
            "rms",
            list3(s.x, d.head_norm.buffer, s.delta),
            list3(self.geometry.width as u32, d.head_norm.ty, self.eps),
            (n, 1, 1),
            256,
        );
        self.block_plane(cmd, Plane { weight: self.head, out: s.logits }, s.delta, n, &none);
        cmd.dispatch(
            "spec_argmax",
            list2(s.logits, s.ids),
            list1(self.vocab as u32),
            (n, 1, 1),
            256,
        );
        cmd.dispatch(
            "mtp_advance",
            list5(s.ids, s.meta, d.drafted, s.mrope, s.limits),
            list3(n as u32, step as u32, k as u32),
            (div_ceil(n, 256), 1, 1),
            256,
        );
    }

    /// A chain of `k` draft steps for every drafting sequence.
    pub fn mtp_draft_program(&self, load: Load, k: usize) -> (r: Program)
        requires
            self.wf(),
            self.mtp is Some,
            self.bonsai is None,
            self.load_wf(load),
            load.tiles == 0,
        ensures
            r@ == self.mtp_draft_steps(load, k),
    {
        let d = self.mtp.unwrap();
        let s = self.scratch;
        let width: usize = self.geometry.width;
        let n: usize = load.rows;
        let mut cmd = Program::new();
        cmd.dispatch(
            "mtp_hidden",
            list5(d.h, d.pending, s.meta, s.bounds, s.delta),
            list3(width as u32, n as u32, 1),
            (groups256(n, width), 1, 1),
            256,
        );
        let ghost start = cmd@;
        let mut step: usize = 0;
        while step < k
            invariant
                step <= k,
                self.wf(),
                self.mtp is Some,
                self.bonsai is None,
                self.load_wf(load),
                load.tiles == 0,
                cmd@ == self.mtp_chain_steps(start, load, step as nat, k),
            decreases k - step,
        {
            self.mtp_step(&mut cmd, load, step, k);
            step = step + 1;
        }
        cmd
    }
}

} // verus!
