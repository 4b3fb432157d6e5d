//! What the vision tower computes.
use vstd::prelude::*;
use crate::arith::{ceil_div, lemma_ceil_div, lemma_product_bound};
use crate::device::effects::{group_planes, group_runs, group_tower, run};
use crate::device::names::{lemma_planes_names, lemma_tower_names};
use crate::device::values::{apart, lemma_seats, product, seat, Cells, Value};
use crate::header::Header;
use crate::paddleocr::serving::projected;
use crate::paddleocr::tower::{field_fault, Block, Linear, Norm, Vision};
use crate::paddleocr::vision::{
    block_steps, cells_before, embed_steps, extract_steps, output_of, patch_count, patches_before,
    position_steps, project_steps, resample_steps, taps, Job, Picture, Resample, EPS, INPUT_EPS,
};
use crate::program::{Buffer, Step, Weight};

verus! {

broadcast use {group_runs, group_planes, group_tower};

/// Rows behind a norm.
pub open spec fn centred(w: Norm, eps: u32, rows: int, of: Value) -> Value {
    Value::Centred {
        gain: w.w.buffer.id,
        bias: w.b.buffer.id,
        width: 1152,
        eps,
        rows,
        of: Box::new(of),
    }
}

/// Rows times a plane, and its bias.
pub open spec fn biased(w: Linear, rows: int, active: bool, base: Option<Box<Value>>, of: Value) -> Value {
    Value::Biased {
        plane: w.w.buffer.id,
        bias: Some(w.b.buffer.id),
        k: w.w.k as u32,
        n: w.w.n as u32,
        rows: rows as u32,
        active,
        base,
        of: Box::new(of),
    }
}

/// A program of one step.
proof fn lemma_single(m: Cells, s: Step)
    ensures
        seq![s] == Seq::<Step>::empty().push(s),
        run(m, Seq::<Step>::empty()) == m,
{
    assert(seq![s] =~= Seq::<Step>::empty().push(s));
}

impl Job {
    /// Each buffer of a wave has its own place.
    proof fn lemma_buffers(&self)
        requires
            apart(self.buffers()),
        ensures
            ({
                let l = self.buffers();
                &&& seat(l, self.x.id) == 0
                &&& seat(l, self.n.id) == 1
                &&& seat(l, self.q.id) == 2
                &&& seat(l, self.k.id) == 3
                &&& seat(l, self.v.id) == 4
                &&& seat(l, self.attn.id) == 5
                &&& seat(l, self.qh.id) == 6
                &&& seat(l, self.kh.id) == 7
                &&& seat(l, self.vh.id) == 8
                &&& seat(l, self.up.id) == 9
                &&& seat(l, self.output.id) == 10
                &&& seat(l, self.xy.id) == 11
                &&& seat(l, self.tiles.id) == 12
            }),
    {
        let l = self.buffers();
        lemma_seats(l);
        assert(l[0] == self.x && l[1] == self.n && l[2] == self.q && l[3] == self.k && l[4] == self.v
            && l[5] == self.attn && l[6] == self.qh && l[7] == self.kh && l[8] == self.vh && l[9]
            == self.up && l[10] == self.output && l[11] == self.xy && l[12] == self.tiles);
    }

    /// The heads of one projection: queries and keys are turned by where their
    /// patches stand, values are not.
    pub open spec fn headed(&self, m: Cells, w: Linear, turned: bool, h: Value) -> Value {
        Value::TowerHeads {
            rows: self.rows as u32,
            turned: if turned { Some(Box::new(m[self.xy.id])) } else { None },
            of: Box::new(biased(w, self.rows as int, false, None, h)),
        }
    }

    /// A block adds the projection of what its tiles see, then the activated
    /// feed-forward of the normalised sum.
    #[verifier::rlimit(60)]
    #[verifier::spinoff_prover]
    pub proof fn blocks_add_attention_and_feed_forward(&self, m: Cells, l: Block)
        requires
            self.wf(),
            apart(self.buffers()),
            l.q.w.n <= 4304 && l.k.w.n <= 4304 && l.v.w.n <= 4304 && l.o.w.n <= 4304,
            l.up.w.n <= 4304 && l.down.w.n <= 4304,
        ensures
            ({
                let rows = self.rows as int;
                let after = run(m, block_steps(self, l));
                let x = m[self.x.id];
                let h = centred(l.ln1, EPS, rows, x);
                let seen = Value::TowerSeen {
                    launch: (16, self.tiles.len as int / 16, 1),
                    tiles: Box::new(m[self.tiles.id]),
                    queries: Box::new(self.headed(m, l.q, true, h)),
                    keys: Box::new(self.headed(m, l.k, true, h)),
                    values: Box::new(self.headed(m, l.v, false, h)),
                };
                let y = biased(l.o, rows, false, Some(Box::new(x)), seen);
                let fed = biased(l.up, rows, true, None, centred(l.ln2, EPS, rows, y));
                &&& after[self.x.id] == biased(l.down, rows, false, Some(Box::new(y)), fed)
                &&& after[self.xy.id] == m[self.xy.id]
                &&& after[self.tiles.id] == m[self.tiles.id]
            }),
    {
        let rows = self.rows as int;
        self.lemma_buffers();
        lemma_tower_names();
        lemma_single(m, crate::paddleocr::vision::ln_step(l.ln1, self.x, self.n, rows, EPS));
        lemma_ceil_div(rows, 32);
        lemma_ceil_div(l.q.w.n as int, 64);
        lemma_ceil_div(l.k.w.n as int, 64);
        lemma_ceil_div(l.v.w.n as int, 64);
        lemma_ceil_div(l.o.w.n as int, 64);
        lemma_ceil_div(l.up.w.n as int, 64);
        lemma_ceil_div(l.down.w.n as int, 64);
        lemma_ceil_div((self.rows + 64) * 1280, 256);
    }

    proof fn lemma_extracted(&self, m: Cells, p: Seq<Step>, first: int, n: int, id: u32)
        requires
            0 <= n <= self.sizes.len(),
            0 <= first,
            first + self.sizes.len() <= u32::MAX,
            id < first || first + n <= id,
        ensures
            run(m, extract_steps(p, self, first, n))[id] == run(m, p)[id],
        decreases n,
    {
        if n > 0 {
            lemma_tower_names();
            self.lemma_extracted(m, p, first, n - 1, id);
        }
    }

    /// Every image gets its own cells of the projected rows, those behind the
    /// cells of the images before it.
    #[verifier::rlimit(40)]
    #[verifier::spinoff_prover]
    pub proof fn images_get_their_own_cells(&self, m: Cells, p: Seq<Step>, first: int, n: int, i: int)
        requires
            0 <= i < n <= self.sizes.len(),
            0 <= first,
            first + self.sizes.len() <= u32::MAX,
            self.output.id < first || first + self.sizes.len() <= self.output.id,
            forall|j: int| 0 <= j < n ==> (#[trigger] self.sizes[j]) <= 0x1_0000,
        ensures
            run(m, extract_steps(p, self, first, n))[output_of(self.sizes@, first, i).id] == (
            Value::Extracted {
                first: cells_before(self.sizes@, i) as u32,
                count: (self.sizes[i] as int / 4) as u32,
                of: Box::new(run(m, p)[self.output.id]),
            }),
        decreases n,
    {
        lemma_tower_names();
        if i < n - 1 {
            self.images_get_their_own_cells(m, p, first, n - 1, i);
        } else {
            self.lemma_extracted(m, p, first, n - 1, self.output.id);
            lemma_ceil_div((self.sizes[i] as int / 4) * 1024, 256);
        }
    }
}

impl Vision {
    /// Behind the last block the rows go through both norms and both planes of
    /// the projector, activated in between.
    #[verifier::rlimit(60)]
    #[verifier::spinoff_prover]
    pub proof fn projectors_activate_between_their_planes(&self, m: Cells, j: &Job, first: int)
        requires
            j.wf(),
            apart(j.buffers()),
            self.up.w.n <= 4608 && self.down.w.n <= 4608,
        ensures
            ({
                let rows = j.rows as int;
                let h = centred(self.pre, INPUT_EPS, rows, centred(self.post, EPS, rows, m[j.x.id]));
                let up = Value::Activated {
                    count: (rows * 1152) as u32,
                    of: Box::new(biased(self.up, rows / 4, false, None, h)),
                };
                exists|p: Seq<Step>|
                    {
                        &&& project_steps(self, j, first) == #[trigger] extract_steps(
                            p,
                            j,
                            first,
                            j.sizes.len() as int,
                        )
                        &&& run(m, p)[j.output.id] == biased(self.down, rows / 4, false, None, up)
                    }
            }),
    {
        let rows = j.rows as int;
        j.lemma_buffers();
        lemma_tower_names();
        lemma_single(m, crate::paddleocr::vision::ln_step(self.post, j.x, j.n, rows, EPS));
        lemma_ceil_div(rows / 4, 32);
        lemma_ceil_div(self.up.w.n as int, 64);
        lemma_ceil_div(self.down.w.n as int, 64);
        lemma_ceil_div(rows * 1152, 256);
        let p = seq![crate::paddleocr::vision::ln_step(self.post, j.x, j.n, rows, EPS)].push(
            crate::paddleocr::vision::ln_step(self.pre, j.n, j.x, rows, INPUT_EPS),
        ).push(crate::paddleocr::vision::mm_step(self.up, j.x, j.up, rows / 4, 1)).push(
            crate::program::kernel(
                "pocr_gelu"@,
                seq![j.up],
                seq![(rows * 1152) as u32],
                (ceil_div(rows * 1152, 256), 1, 1),
                256,
            ),
        ).push(crate::paddleocr::vision::mm_step(self.down, j.up, j.output, rows / 4, 1));
        assert(project_steps(self, j, first) == extract_steps(p, j, first, j.sizes.len() as int));
    }

    /// Rows with the positions of the first `n` images: as many across as the
    /// image is wide, as many down as it is high.
    pub open spec fn positioned(&self, s: Seq<Picture>, n: int, of: Value) -> Value
        decreases n,
    {
        if n <= 0 {
            of
        } else {
            Value::Positioned {
                table: self.pos.buffer.id,
                across: (s[n - 1].tw as int / 14) as u32,
                down: (s[n - 1].th as int / 14) as u32,
                first: patches_before(s, n - 1) as u32,
                of: Box::new(self.positioned(s, n - 1, of)),
            }
        }
    }

    proof fn lemma_positioned(&self, m: Cells, x: Buffer, p: Seq<Step>, s: Seq<Picture>, n: int)
        requires
            0 <= n <= s.len(),
            forall|i: int| 0 <= i < n ==> (#[trigger] s[i]).tw <= 57344 && s[i].th <= 57344,
        ensures
            run(m, position_steps(self, x, p, s, n))[x.id] == self.positioned(s, n, run(m, p)[x.id]),
        decreases n,
    {
        if n > 0 {
            lemma_tower_names();
            self.lemma_positioned(m, x, p, s, n - 1);
            lemma_product_bound(s[n - 1].tw as int / 14, s[n - 1].th as int / 14, 4096, 4096);
            lemma_ceil_div(patch_count(s[n - 1]) * 1152, 256);
        }
    }

    /// Patches are projected with their bias, then every image gets the
    /// positions of its own raster.
    #[verifier::rlimit(40)]
    #[verifier::spinoff_prover]
    pub proof fn patches_get_the_positions_of_their_raster(&self, m: Cells, j: &Job, patches: Buffer, s: Seq<Picture>)
        requires
            j.wf(),
            forall|i: int| 0 <= i < s.len() ==> (#[trigger] s[i]).tw <= 57344 && s[i].th <= 57344,
        ensures
            run(m, embed_steps(self, j, patches, s))[j.x.id] == self.positioned(
                s,
                s.len() as int,
                Value::Biased {
                    plane: self.patch.w.buffer.id,
                    bias: Some(self.patch.b.buffer.id),
                    k: 588,
                    n: 1152,
                    rows: j.rows as u32,
                    active: false,
                    base: None,
                    of: Box::new(m[patches.id]),
                },
            ),
    {
        let first = crate::program::kernel(
            "pocr_patch_mm"@,
            seq![self.patch.w.buffer, patches, j.x, self.patch.b.buffer],
            seq![588u32, 1152u32, j.rows as u32, 1u32],
            (18, ceil_div(j.rows as int, 32), 1),
            128,
        );
        lemma_tower_names();
        lemma_single(m, first);
        lemma_ceil_div(j.rows as int, 32);
        self.lemma_positioned(m, j.x, seq![first], s, s.len() as int);
    }
}

/// A picture is brought to its width by the coefficients of its width, then to
/// its height by those of its height, and cut at its own row.
#[verifier::rlimit(40)]
#[verifier::spinoff_prover]
pub proof fn pictures_are_resampled_by_width_and_height(
    m: Cells,
    p: Picture,
    r: Resample,
    patches: Buffer,
    offset: int,
)
    requires
        p.tw <= 57344 && p.th <= 57344 && p.w <= 16384 && p.h <= 16384,
        0 < p.tw && 0 < p.th,
        apart(seq![r.cx, r.cy, r.src, r.temp, patches]),
    ensures
        ({
            let coefficients = |from: usize, to: usize| Value::Weights {
                from: from as u32,
                to: to as u32,
                taps: (4 * ceil_div(from as int, to as int) + 4) as u32,
            };
            let narrow = Value::Narrowed {
                width: p.w as u32,
                to: p.tw as u32,
                height: p.h as u32,
                taps: (4 * ceil_div(p.w as int, p.tw as int) + 4) as u32,
                coefficients: Box::new(coefficients(p.w, p.tw)),
                of: Box::new(m[r.src.id]),
            };
            run(m, resample_steps(p, r, patches, offset))[patches.id] == (Value::Patches {
                width: p.tw as u32,
                height: p.th as u32,
                taps: (4 * ceil_div(p.h as int, p.th as int) + 4) as u32,
                first: offset as u32,
                coefficients: Box::new(coefficients(p.h, p.th)),
                of: Box::new(narrow),
                old: Box::new(m[patches.id]),
            })
        }),
{
    let l = seq![r.cx, r.cy, r.src, r.temp, patches];
    lemma_seats(l);
    assert(l[0] == r.cx && l[1] == r.cy && l[2] == r.src && l[3] == r.temp && l[4] == patches);
    lemma_tower_names();
    let steps = resample_steps(p, r, patches, offset);
    assert(steps =~= Seq::<Step>::empty().push(steps[0]).push(steps[1]).push(steps[2]).push(steps[3]));
    assert(run(m, Seq::<Step>::empty()) == m);
    lemma_ceil_div(p.tw as int, 256);
    lemma_ceil_div(p.th as int, 256);
    lemma_product_bound(p.tw as int, p.h as int, 57344, 16384);
    lemma_ceil_div(p.tw * p.h * 3, 256);
    lemma_product_bound(p.tw as int / 14, p.th as int / 14, 4096, 4096);
    lemma_ceil_div(patch_count(p) * 588, 256);
}

/// The tower normalises with what its metadata must give.
pub proof fn towers_normalise_as_their_metadata_says(h: &Header)
    requires
        field_fault(h) is None,
    ensures
        h.single("clip.vision.attention.layer_norm_epsilon"@) == Some(EPS),
{
}

/// A projection of the decoder multiplies the rows by its plane, for few rows
/// and for many.
pub proof fn decoders_multiply_by_their_planes(m: Cells, p: Seq<Step>, w: Weight, x: Buffer, y: Buffer, rows: int)
    requires
        0 < rows <= 65536,
        w.n <= 0x80_0000,
        w.k <= 0x1_0000,
    ensures
        ({
            let before = run(m, p);
            let after = run(m, p.push(projected(w, x, y, rows)));
            &&& rows < 8 ==> after[y.id] == product(w, rows, before[x.id])
            &&& rows >= 8 ==> after[y.id] == (Value::Biased {
                plane: w.buffer.id,
                bias: None,
                k: w.k as u32,
                n: w.n as u32,
                rows: rows as u32,
                active: false,
                base: None,
                of: Box::new(before[x.id]),
            })
            &&& forall|id: u32| id != y.id ==> #[trigger] after[id] == before[id]
        }),
{
    lemma_planes_names();
    lemma_tower_names();
    lemma_ceil_div(w.n as int, 4);
    lemma_ceil_div(w.n as int, 64);
    lemma_ceil_div(rows, 32);
}

} // verus!
