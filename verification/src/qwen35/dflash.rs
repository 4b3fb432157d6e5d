//! The block drafter: windowed attention over conditioning rings.
use vstd::prelude::*;
use crate::arith::{area, ceil_div, div_ceil, groups, groups256, lemma_product_bound, MAX_ROWS, ONE};
use crate::program::{
    kernel, linear, list1, list2, list3, list4, list5, list6, list7, list9, planes as planes_step,
    Buffer, Plane, Program, Route, RowSpan, Step, Weight,
};
use crate::qwen35::geometry::Geometry;
use crate::qwen35::graph::Graph;

verus! {

pub const DH: usize = 32;
pub const DK: usize = 8;
pub const DIM: usize = 128;

/// Rows of one draft block.
pub const BLOCK: usize = 8;

/// The token that stands for a row still to be drafted.
pub const MASK: u32 = 248070;

/// Bit pattern of the rotary base, ten million.
pub const ROPE: u32 = 0x4b18_9680;

/// Bit pattern of the head-128 softmax scale, one over the root of 128.
pub const SCALE: u32 = 0x3db5_04f3;

/// Which conditioning tap, if any, a target layer feeds.
pub open spec fn tap_of(layer: int) -> Option<int> {
    if layer == 6 {
        Some(0)
    } else if layer == 20 {
        Some(1)
    } else if layer == 34 {
        Some(2)
    } else if layer == 48 {
        Some(3)
    } else if layer == 62 {
        Some(4)
    } else {
        None
    }
}

fn tap(layer: usize) -> (r: Option<usize>)
    ensures
        match r {
            Some(t) => tap_of(layer as int) == Some(t as int),
            None => tap_of(layer as int) is None,
        },
{
    match layer {
        6 => Some(0),
        20 => Some(1),
        34 => Some(2),
        48 => Some(3),
        62 => Some(4),
        _ => None,
    }
}

#[derive(Clone, Copy, Debug, PartialEq, Eq, Structural)]
pub struct Conv {
    pub base: Weight,
    pub proj: Weight,
}

#[derive(Clone, Copy, Debug, PartialEq, Eq, Structural)]
pub struct DraftLayer {
    pub norm: Weight,
    pub post: Weight,
    pub q: Weight,
    pub k: Weight,
    pub v: Weight,
    pub o: Weight,
    pub qn: Weight,
    pub kn: Weight,
    pub gate: Weight,
    pub up: Weight,
    pub down: Weight,
    pub ac: Conv,
    pub fc: Conv,
    pub keys: Buffer,
    pub values: Buffer,
}

#[derive(Debug)]
pub struct Dflash {
    pub fc: Weight,
    pub enc_norm: Weight,
    pub out_norm: Weight,
    pub selector: Weight,
    pub pred: Weight,
    pub succ: Weight,
    pub layers: Vec<DraftLayer>,
    pub pages: Buffer,
    pub ring_tokens: usize,
    pub taps: Buffer,
    pub conditioning: Buffer,
    pub z: Buffer,
    pub x: Buffer,
    pub norm: Buffer,
    pub delta: Buffer,
    pub conv: Buffer,
    pub coeff: Buffer,
    pub q: Buffer,
    pub qn: Buffer,
    pub k: Buffer,
    pub v: Buffer,
    pub attn: Buffer,
    pub gate: Buffer,
    pub up: Buffer,
    pub gemm: Buffer,
    pub logits: Buffer,
    pub top: Buffer,
    pub top_parts: Buffer,
    pub selector_h: Buffer,
    pub out: Buffer,
}

impl Dflash {
    pub open spec fn wf(self, g: Geometry) -> bool {
        &&& g == Geometry::dense_27b()
        &&& self.layers.len() == 5
        &&& 0 < self.ring_tokens <= 2112
    }

    /// Words of one ring of keys or values.
    pub open spec fn ring_words(self) -> int {
        self.ring_tokens * 512
    }
}

impl Graph {
    pub open spec fn draft_rms(&self, from: Buffer, norm: Weight, to: Buffer, rows: int) -> Step {
        kernel(
            if self.splash { "splash_df_rms"@ } else { "rms"@ },
            seq![from, norm.buffer, to],
            seq![self.geometry.width as u32, 0u32, self.eps],
            (rows, 1, 1),
            256,
        )
    }

    fn push_rms(&self, cmd: &mut Program, from: Buffer, norm: Weight, to: Buffer, rows: usize)
        ensures
            final(cmd)@ == old(cmd)@.push(self.draft_rms(from, norm, to, rows as int)),
    {
        cmd.dispatch(
            if self.splash { "splash_df_rms" } else { "rms" },
            list3(from, norm.buffer, to),
            list3(self.geometry.width as u32, 0, self.eps),
            (rows, 1, 1),
            256,
        );
    }

    /// Normalise, rotate and store keys and values in a layer's ring.
    /// `drafted` rows are masked once they are rejected.
    pub open spec fn ring_store(&self, l: DraftLayer, rows: int, drafted: u32) -> Step {
        let d = self.dflash->0;
        let s = self.scratch;
        kernel(
            if self.splash { "splash_df_kstore"@ } else { "df_kstore"@ },
            seq![d.k, d.v, l.kn.buffer, s.meta, d.pages, l.keys, l.values, s.mrope, s.bounds],
            seq![DK as u32, self.page_stride as u32, self.eps, ROPE, d.ring_tokens as u32, drafted],
            (DK as int, rows, 1),
            32,
        )
    }

    fn push_ring_store(&self, cmd: &mut Program, d: &Dflash, l: DraftLayer, rows: usize, drafted: u32)
        requires
            self.dflash == Some(*d),
        ensures
            final(cmd)@ == old(cmd)@.push(self.ring_store(l, rows as int, drafted)),
    {
        let s = self.scratch;
        cmd.dispatch(
            if self.splash { "splash_df_kstore" } else { "df_kstore" },
            list9(d.k, d.v, l.kn.buffer, s.meta, d.pages, l.keys, l.values, s.mrope, s.bounds),
            list6(DK as u32, self.page_stride as u32, self.eps, ROPE, d.ring_tokens as u32, drafted),
            (DK, rows, 1),
            32,
        );
    }

    /// Copy the ring of `from` over the ring of `to`, layer by layer.
    pub open spec fn ring_copy(words: int, ring: Buffer, from: usize, to: usize) -> Step {
        kernel(
            "spec_copy_words"@,
            seq![ring, ring],
            seq![(from * words) as u32, (to * words) as u32, words as u32],
            (ceil_div(words, 256), 1, 1),
            256,
        )
    }

    pub open spec fn ring_copies(
        p: Seq<Step>,
        layers: Seq<DraftLayer>,
        words: int,
        from: usize,
        to: usize,
    ) -> Seq<Step>
        decreases layers.len(),
    {
        if layers.len() == 0 {
            p
        } else {
            Self::ring_copies(p, layers.drop_last(), words, from, to).push(
                Self::ring_copy(words, layers.last().keys, from, to),
            ).push(Self::ring_copy(words, layers.last().values, from, to))
        }
    }

    pub open spec fn dflash_checkpoint_steps(&self, p: Seq<Step>, from: usize, to: usize) -> Seq<Step> {
        match self.dflash {
            None => p,
            Some(d) => Self::ring_copies(p, d.layers@, d.ring_words(), from, to),
        }
    }

    fn push_ring_copy(cmd: &mut Program, words: usize, ring: Buffer, from: usize, to: usize)
        requires
            words <= 2112 * 512,
            from <= MAX_ROWS,
            to <= MAX_ROWS,
        ensures
            final(cmd)@ == old(cmd)@.push(Self::ring_copy(words as int, ring, from, to)),
    {
        proof {
            lemma_product_bound(from as int, words as int, 0x1_0000, 1081344);
            lemma_product_bound(to as int, words as int, 0x1_0000, 1081344);
        }
        let source: u64 = from as u64 * words as u64;
        let target: u64 = to as u64 * words as u64;
        cmd.dispatch(
            "spec_copy_words",
            list2(ring, ring),
            list3(source as u32, target as u32, words as u32),
            (div_ceil(words, 256), 1, 1),
            256,
        );
    }

    pub fn dflash_checkpoint(&self, cmd: &mut Program, from: usize, to: usize)
        requires
            self.wf(),
            from <= MAX_ROWS,
            to <= MAX_ROWS,
        ensures
            final(cmd)@ == self.dflash_checkpoint_steps(old(cmd)@, from, to),
    {
        if let Some(d) = &self.dflash {
            let words: usize = d.ring_tokens * 512;
            let mut i: usize = 0;
            assert(d.layers@.take(0) =~= Seq::<DraftLayer>::empty());
            while i < d.layers.len()
                invariant
                    i <= d.layers.len(),
                    words <= 2112 * 512,
                    from <= MAX_ROWS,
                    to <= MAX_ROWS,
                    cmd@ == Self::ring_copies(
                        old(cmd)@,
                        d.layers@.take(i as int),
                        words as int,
                        from,
                        to,
                    ),
                decreases d.layers.len() - i,
            {
                let l = d.layers[i];
                Self::push_ring_copy(cmd, words, l.keys, from, to);
                Self::push_ring_copy(cmd, words, l.values, from, to);
                proof {
                    let next = d.layers@.take(i + 1);
                    assert(next.drop_last() =~= d.layers@.take(i as int));
                    assert(next.last() == l);
                }
                i = i + 1;
            }
            assert(d.layers@.take(d.layers.len() as int) =~= d.layers@);
        }
    }

    /// Keep the hidden rows that condition the drafter.
    pub open spec fn dflash_tap_steps(&self, p: Seq<Step>, layer: int, m: usize) -> Seq<Step> {
        let width = self.geometry.width;
        match self.dflash {
            Some(d) => match tap_of(layer) {
                Some(t) => p.push(
                    kernel(
                        "df_tap"@,
                        seq![self.scratch.x, d.taps],
                        seq![width as u32, m as u32, t as u32],
                        (groups(m as int, width as int), 1, 1),
                        256,
                    ),
                ),
                None => p,
            },
            None => p,
        }
    }

    pub fn dflash_tap(&self, cmd: &mut Program, layer: usize, m: usize)
        requires
            self.wf(),
            m <= MAX_ROWS,
        ensures
            final(cmd)@ == self.dflash_tap_steps(old(cmd)@, layer as int, m),
    {
        if let Some(d) = &self.dflash {
            if let Some(t) = tap(layer) {
                let width: usize = self.geometry.width;
                cmd.dispatch(
                    "df_tap",
                    list2(self.scratch.x, d.taps),
                    list3(width as u32, m as u32, t as u32),
                    (groups256(m, width), 1, 1),
                    256,
                );
            }
        }
    }

    pub open spec fn append_layers(&self, p: Seq<Step>, layers: Seq<DraftLayer>, m: usize) -> Seq<Step>
        decreases layers.len(),
    {
        if layers.len() == 0 {
            p
        } else {
            let d = self.dflash->0;
            let l = layers.last();
            self.append_layers(p, layers.drop_last(), m).push(
                planes_step(
                    Route::Shared,
                    seq![Plane { weight: l.k, out: d.k }, Plane { weight: l.v, out: d.v }],
                    d.z,
                    m as int,
                    d.gemm,
                    seq![],
                ),
            ).push(self.ring_store(l, m as int, 0))
        }
    }

    /// Condition every drafter layer on the finished rows.
    pub open spec fn dflash_append_steps(&self, p: Seq<Step>, m: usize) -> Seq<Step> {
        match self.dflash {
            None => p,
            Some(d) => self.append_layers(
                p.push(linear(d.fc, d.taps, d.conditioning, m as int, d.gemm)).push(
                    self.draft_rms(d.conditioning, d.enc_norm, d.z, m as int),
                ),
                d.layers@,
                m,
            ),
        }
    }

    pub fn dflash_append(&self, cmd: &mut Program, m: usize)
        ensures
            final(cmd)@ == self.dflash_append_steps(old(cmd)@, m),
    {
        if let Some(d) = &self.dflash {
            cmd.linear(d.fc, d.taps, d.conditioning, m, d.gemm);
            self.push_rms(cmd, d.conditioning, d.enc_norm, d.z, m);
            let ghost start = cmd@;
            let mut i: usize = 0;
            assert(d.layers@.take(0) =~= Seq::<DraftLayer>::empty());
            while i < d.layers.len()
                invariant
                    i <= d.layers.len(),
                    self.dflash == Some(*d),
                    cmd@ == self.append_layers(start, d.layers@.take(i as int), m),
                decreases d.layers.len() - i,
            {
                let l = d.layers[i];
                cmd.planes(
                    Route::Shared,
                    list2(Plane { weight: l.k, out: d.k }, Plane { weight: l.v, out: d.v }),
                    d.z,
                    m,
                    d.gemm,
                    Vec::new(),
                );
                self.push_ring_store(cmd, d, l, m, 0);
                proof {
                    let next = d.layers@.take(i + 1);
                    assert(next.drop_last() =~= d.layers@.take(i as int));
                    assert(next.last() == l);
                }
                i = i + 1;
            }
            assert(d.layers@.take(d.layers.len() as int) =~= d.layers@);
        }
    }

    /// A grouped dynamic convolution before (`side` 0) or after (`side` 1) a
    /// sublayer.
    pub open spec fn conv_step(&self, c: Conv, input: Buffer, rows: usize, block: usize, side: u32) -> Step {
        let d = self.dflash->0;
        let width = self.geometry.width;
        kernel(
            "df_conv"@,
            seq![input, c.base.buffer, d.coeff, d.conv],
            seq![width as u32, rows as u32, block as u32, side],
            (groups(rows as int, width as int / 4), 1, 1),
            256,
        )
    }

    fn push_conv(
        &self,
        cmd: &mut Program,
        d: &Dflash,
        c: Conv,
        input: Buffer,
        rows: usize,
        block: usize,
        side: u32,
    )
        requires
            self.wf(),
            self.dflash == Some(*d),
            rows <= MAX_ROWS,
        ensures
            final(cmd)@ == old(cmd)@.push(self.conv_step(c, input, rows, block, side)),
    {
        let width: usize = self.geometry.width;
        cmd.dispatch(
            "df_conv",
            list4(input, c.base.buffer, d.coeff, d.conv),
            list4(width as u32, rows as u32, block as u32, side),
            (groups256(rows, width / 4), 1, 1),
            256,
        );
    }

    pub open spec fn draft_residual(&self, rows: usize) -> Step {
        let d = self.dflash->0;
        let width = self.geometry.width;
        kernel(
            if self.splash { "mlx_residual"@ } else { "residual"@ },
            seq![d.x, d.conv],
            seq![(rows * width) as u32, ONE],
            (groups(rows as int, width as int), 1, 1),
            256,
        )
    }

    fn push_residual(&self, cmd: &mut Program, d: &Dflash, rows: usize)
        requires
            self.wf(),
            self.dflash == Some(*d),
            rows <= MAX_ROWS,
        ensures
            final(cmd)@ == old(cmd)@.push(self.draft_residual(rows)),
    {
        let width: usize = self.geometry.width;
        cmd.dispatch(
            if self.splash { "mlx_residual" } else { "residual" },
            list2(d.x, d.conv),
            list2(area(rows, width) as u32, ONE),
            (groups256(rows, width), 1, 1),
            256,
        );
    }

    /// Windowed attention of `sequences` draft blocks of `block` rows.
    pub open spec fn draft_attention_steps(
        &self,
        p: Seq<Step>,
        l: DraftLayer,
        sequences: usize,
        block: usize,
    ) -> Seq<Step> {
        let d = self.dflash->0;
        let s = self.scratch;
        let rows = (sequences * block) as usize;
        let p = p.push(self.draft_rms(d.x, l.norm, d.norm, rows as int)).push(
            linear(l.ac.proj, d.norm, d.coeff, rows as int, d.gemm),
        ).push(self.conv_step(l.ac, d.norm, rows, block, 0)).push(
            planes_step(
                Route::Shared,
                seq![
                    Plane { weight: l.q, out: d.q },
                    Plane { weight: l.k, out: d.k },
                    Plane { weight: l.v, out: d.v },
                ],
                d.conv,
                rows as int,
                d.gemm,
                seq![],
            ),
        ).push(
            kernel(
                if self.splash { "splash_df_qnorm"@ } else { "df_qnorm"@ },
                seq![d.q, l.qn.buffer, s.mrope, d.qn],
                seq![DH as u32, self.page_stride as u32, self.eps, ROPE],
                (DH as int, rows as int, 1),
                32,
            ),
        ).push(self.ring_store(l, rows as int, 1)).push(
            kernel(
                if self.splash { "splash_df_query"@ } else { "attention_query"@ },
                seq![d.qn, d.gemm],
                seq![4096u32, 0u32, rows as u32],
                (groups(rows + 32, 4096), 1, 1),
                256,
            ),
        ).push(
            kernel(
                if self.splash { "splash_df_attention_grouped"@ } else { "df_attention"@ },
                seq![d.gemm, l.keys, l.values, s.meta, d.pages, d.attn, s.attn_tiles],
                seq![DH as u32, DK as u32, self.page_stride as u32, SCALE, rows as u32],
                if self.splash {
                    (DK as int, sequences as int, 8int)
                } else {
                    (DH as int, sequences as int, 1int)
                },
                128,
            ),
        );
        if self.splash {
            p.push(
                kernel(
                    "splash_df_attention_join"@,
                    seq![d.gemm, d.attn],
                    seq![rows as u32],
                    (rows * DH, 1, 1),
                    32,
                ),
            )
        } else {
            p
        }
    }

    /// Output projection, convolution and feed-forward of one drafter layer.
    pub open spec fn draft_ffn_steps(&self, p: Seq<Step>, l: DraftLayer, rows: usize, block: usize) -> Seq<Step> {
        let d = self.dflash->0;
        let ff = self.geometry.ff;
        p.push(linear(l.o, d.attn, d.delta, rows as int, d.gemm)).push(
            self.conv_step(l.ac, d.delta, rows, block, 1),
        ).push(self.draft_residual(rows)).push(self.draft_rms(d.x, l.post, d.norm, rows as int)).push(
            linear(l.fc.proj, d.norm, d.coeff, rows as int, d.gemm),
        ).push(self.conv_step(l.fc, d.norm, rows, block, 0)).push(
            planes_step(
                Route::Shared,
                seq![Plane { weight: l.gate, out: d.gate }, Plane { weight: l.up, out: d.up }],
                d.conv,
                rows as int,
                d.gemm,
                seq![],
            ),
        ).push(
            kernel(
                "swiglu"@,
                seq![d.gate, d.up],
                seq![(rows * ff) as u32],
                (groups(rows as int, ff as int), 1, 1),
                256,
            ),
        ).push(linear(l.down, d.gate, d.delta, rows as int, d.gemm)).push(
            self.conv_step(l.fc, d.delta, rows, block, 1),
        ).push(self.draft_residual(rows))
    }

    pub open spec fn draft_layers(
        &self,
        p: Seq<Step>,
        layers: Seq<DraftLayer>,
        sequences: usize,
        block: usize,
    ) -> Seq<Step>
        decreases layers.len(),
    {
        if layers.len() == 0 {
            p
        } else {
            self.draft_ffn_steps(
                self.draft_attention_steps(
                    self.draft_layers(p, layers.drop_last(), sequences, block),
                    layers.last(),
                    sequences,
                    block,
                ),
                layers.last(),
                (sequences * block) as usize,
                block,
            )
        }
    }

    /// Head, top-sixteen candidates and path selection.
    pub open spec fn draft_select_steps(&self, p: Seq<Step>, sequences: usize, block: usize) -> Seq<Step> {
        let d = self.dflash->0;
        let s = self.scratch;
        let rows = (sequences * block) as usize;
        let parts = ceil_div(self.vocab as int, 4096);
        let p = p.push(self.draft_rms(d.x, d.out_norm, d.norm, rows as int));
        let p = if self.mlx {
            self.project_steps(
                p,
                seq![Plane { weight: self.head, out: d.logits }],
                d.norm,
                rows,
                d.gemm,
                Seq::empty(),
            )
        } else {
            p.push(linear(self.head, d.norm, d.logits, rows as int, d.gemm))
        };
        p.push(
            kernel(
                "df_top16"@,
                seq![d.logits, d.top_parts],
                seq![self.vocab as u32],
                (parts, rows as int, 1),
                256,
            ),
        ).push(
            kernel(
                "df_top16_merge"@,
                seq![d.top_parts, d.top],
                seq![(parts * 16) as u32],
                (rows as int, 1, 1),
                256,
            ),
        ).push(linear(d.selector, d.norm, d.selector_h, rows as int, d.gemm)).push(
            kernel(
                "df_select"@,
                seq![d.top, d.pred.buffer, d.succ.buffer, d.selector_h, s.ids, d.out],
                seq![block as u32, d.pred.ty, d.succ.ty],
                (sequences as int, 1, 1),
                256,
            ),
        )
    }

    /// The whole draft of `sequences` blocks.
    pub open spec fn dflash_draft_steps(&self, sequences: usize, block: usize) -> Seq<Step> {
        let d = self.dflash->0;
        let width = self.geometry.width;
        let rows = (sequences * block) as usize;
        let p = seq![
            kernel(
                if self.mlx { "mlx_embed"@ } else { "embed"@ },
                seq![self.embedding.buffer, self.scratch.ids, d.x],
                seq![
                    width as u32,
                    rows as u32,
                    if self.mlx { self.vocab as u32 } else { self.embedding.ty },
                    ONE,
                ],
                (groups(rows as int, width as int), 1, 1),
                256,
            ),
        ];
        self.draft_select_steps(self.draft_layers(p, d.layers@, sequences, block), sequences, block)
    }

    /// The packed lane's attention borrows the projection workspace.
    pub open spec fn draft_fits(&self, sequences: int, block: int) -> bool {
        self.splash ==> {
            &&& block == 8
            &&& (self.dflash->0).gemm.len >= (sequences * 8 + 32) * 8192 + sequences * (8 * 8 * 32 * 130 * 4)
        }
    }

    /// Whether the drafter's workspace holds this many blocks.
    pub fn draft_room(&self, sequences: usize, block: usize) -> (r: bool)
        requires
            self.dflash is Some,
            sequences <= MAX_ROWS,
        ensures
            r == self.draft_fits(sequences as int, block as int),
    {
        let n: u64 = sequences as u64;
        assert(8int * 8 * 32 * 130 * 4 == 1064960);
        !self.splash || (block == 8 && self.dflash.as_ref().unwrap().gemm.len >= (n * 8 + 32) * 8192 + n
            * 1064960)
    }

    fn draft_attention(
        &self,
        cmd: &mut Program,
        d: &Dflash,
        l: DraftLayer,
        sequences: usize,
        block: usize,
    )
        requires
            self.wf(),
            self.dflash == Some(*d),
            sequences * block <= MAX_ROWS,
        ensures
            final(cmd)@ == self.draft_attention_steps(old(cmd)@, l, sequences, block),
    {
        let s = self.scratch;
        let rows: usize = sequences * block;
        self.push_rms(cmd, d.x, l.norm, d.norm, rows);
        cmd.linear(l.ac.proj, d.norm, d.coeff, rows, d.gemm);
        self.push_conv(cmd, d, l.ac, d.norm, rows, block, 0);
        cmd.planes(
            Route::Shared,
            list3(
                Plane { weight: l.q, out: d.q },
                Plane { weight: l.k, out: d.k },
                Plane { weight: l.v, out: d.v },
            ),
            d.conv,
            rows,
            d.gemm,
            Vec::new(),
        );
        cmd.dispatch(
            if self.splash { "splash_df_qnorm" } else { "df_qnorm" },
            list4(d.q, l.qn.buffer, s.mrope, d.qn),
            list4(DH as u32, self.page_stride as u32, self.eps, ROPE),
            (DH, rows, 1),
            32,
        );
        self.push_ring_store(cmd, d, l, rows, 1);
        cmd.dispatch(
            if self.splash { "splash_df_query" } else { "attention_query" },
            list2(d.qn, d.gemm),
            list3(4096, 0, rows as u32),
            (groups256(rows + 32, 4096), 1, 1),
            256,
        );
        cmd.dispatch(
            if self.splash { "splash_df_attention_grouped" } else { "df_attention" },
            list7(d.gemm, l.keys, l.values, s.meta, d.pages, d.attn, s.attn_tiles),
            list5(DH as u32, DK as u32, self.page_stride as u32, SCALE, rows as u32),
            if self.splash { (DK, sequences, 8) } else { (DH, sequences, 1) },
            128,
        );
        if self.splash {
            cmd.dispatch(
                "splash_df_attention_join",
                list2(d.gemm, d.attn),
                list1(rows as u32),
                (rows * DH, 1, 1),
                32,
            );
        }
    }

    fn draft_ffn(&self, cmd: &mut Program, d: &Dflash, l: DraftLayer, rows: usize, block: usize)
        requires
            self.wf(),
            self.dflash == Some(*d),
            rows <= MAX_ROWS,
        ensures
            final(cmd)@ == self.draft_ffn_steps(old(cmd)@, l, rows, block),
    {
        let ff: usize = self.geometry.ff;
        cmd.linear(l.o, d.attn, d.delta, rows, d.gemm);
        self.push_conv(cmd, d, l.ac, d.delta, rows, block, 1);
        self.push_residual(cmd, d, rows);
        self.push_rms(cmd, d.x, l.post, d.norm, rows);
        cmd.linear(l.fc.proj, d.norm, d.coeff, rows, d.gemm);
        self.push_conv(cmd, d, l.fc, d.norm, rows, block, 0);
        cmd.planes(
            Route::Shared,
            list2(Plane { weight: l.gate, out: d.gate }, Plane { weight: l.up, out: d.up }),
            d.conv,
            rows,
            d.gemm,
            Vec::new(),
        );
        cmd.dispatch(
            "swiglu",
            list2(d.gate, d.up),
            list1(area(rows, ff) as u32),
            (groups256(rows, ff), 1, 1),
            256,
        );
        cmd.linear(l.down, d.gate, d.delta, rows, d.gemm);
        self.push_conv(cmd, d, l.fc, d.delta, rows, block, 1);
        self.push_residual(cmd, d, rows);
    }

    fn draft_select(&self, cmd: &mut Program, d: &Dflash, sequences: usize, block: usize)
        requires
            self.wf(),
            self.bonsai is None,
            self.dflash == Some(*d),
            1 <= sequences * block <= MAX_ROWS,
        ensures
            final(cmd)@ == self.draft_select_steps(old(cmd)@, sequences, block),
    {
        let s = self.scratch;
        let rows: usize = sequences * block;
        let parts: usize = div_ceil(self.vocab, 4096);
        self.push_rms(cmd, d.x, d.out_norm, d.norm, rows);
        if self.mlx {
            let none: Vec<RowSpan> = Vec::new();
            self.project(
                cmd,
                list1(Plane { weight: self.head, out: d.logits }),
                d.norm,
                rows,
                d.gemm,
                &none,
            );
        } else {
            cmd.linear(self.head, d.norm, d.logits, rows, d.gemm);
        }
        cmd.dispatch(
            "df_top16",
            list2(d.logits, d.top_parts),
            list1(self.vocab as u32),
            (parts, rows, 1),
            256,
        );
        cmd.dispatch(
            "df_top16_merge",
            list2(d.top_parts, d.top),
            list1((parts * 16) as u32),
            (rows, 1, 1),
            256,
        );
        cmd.linear(d.selector, d.norm, d.selector_h, rows, d.gemm);
        cmd.dispatch(
            "df_select",
            list6(d.top, d.pred.buffer, d.succ.buffer, d.selector_h, s.ids, d.out),
            list3(block as u32, d.pred.ty, d.succ.ty),
            (sequences, 1, 1),
            256,
        );
    }

    /// Draft `sequences` blocks of `block` rows.
    pub fn dflash_draft_program(&self, sequences: usize, block: usize) -> (r: Program)
        requires
            self.wf(),
            self.bonsai is None,
            self.dflash is Some,
            1 <= sequences * block <= MAX_ROWS,
            self.draft_fits(sequences as int, block as int),
        ensures
            r@ == self.dflash_draft_steps(sequences, block),
    {
        let d = self.dflash.as_ref().unwrap();
        let width: usize = self.geometry.width;
        let rows: usize = sequences * block;
        let mut cmd = Program::new();
        cmd.dispatch(
            if self.mlx { "mlx_embed" } else { "embed" },
            list3(self.embedding.buffer, self.scratch.ids, d.x),
            list4(
                width as u32,
                rows as u32,
                if self.mlx { self.vocab as u32 } else { self.embedding.ty },
                ONE,
            ),
            (groups256(rows, width), 1, 1),
            256,
        );
        let ghost start = cmd@;
        let mut i: usize = 0;
        assert(d.layers@.take(0) =~= Seq::<DraftLayer>::empty());
        while i < d.layers.len()
            invariant
                i <= d.layers.len(),
                self.wf(),
                self.dflash == Some(*d),
                sequences * block <= MAX_ROWS,
                rows == sequences * block,
                cmd@ == self.draft_layers(start, d.layers@.take(i as int), sequences, block),
            decreases d.layers.len() - i,
        {
            let l = d.layers[i];
            self.draft_attention(&mut cmd, d, l, sequences, block);
            self.draft_ffn(&mut cmd, d, l, rows, block);
            proof {
                let next = d.layers@.take(i + 1);
                assert(next.drop_last() =~= d.layers@.take(i as int));
                assert(next.last() == l);
            }
            i = i + 1;
        }
        assert(d.layers@.take(d.layers.len() as int) =~= d.layers@);
        self.draft_select(&mut cmd, d, sequences, block);
        cmd
    }
}

/// Two rows less than a ring apart never share a ring row: a saved boundary
/// keeps its whole live window while later rows are written.
pub proof fn ring_rows_are_distinct(first: int, second: int, ring: int)
    requires
        0 <= first < second,
        second - first < ring,
    ensures
        first % ring != second % ring,
{
    if first % ring == second % ring {
        vstd::arithmetic::div_mod::lemma_fundamental_div_mod(first, ring);
        vstd::arithmetic::div_mod::lemma_fundamental_div_mod(second, ring);
        let a = first / ring;
        let b = second / ring;
        assert(ring * (b - a) == second - first) by (nonlinear_arith)
            requires
                first == ring * a + first % ring,
                second == ring * b + second % ring,
                first % ring == second % ring,
        ;
        assert(false) by (nonlinear_arith)
            requires
                ring * (b - a) == second - first,
                0 < second - first < ring,
        ;
    }
}

} // verus!
