//! One wave through the tower: packing, resampling, blocks and projector.
//! A step is one block, so that decoding can run between steps.
use vstd::prelude::*;
use crate::arith::{ceil_div, div_ceil, lemma_product_bound, max, min};
use crate::error::{Fault, MetalError};
use crate::paddleocr::graph::WIDTH;
use crate::paddleocr::tower::{Block, Linear, Norm, Vision, DEPTH, E, MAX_PATCHES};
use crate::program::{kernel, list1, list2, list3, list4, list5, Buffer, Program, Step};

verus! {

/// Bit patterns of the two normalisation epsilons.
pub const EPS: u32 = 0x3586_37bd;
pub const INPUT_EPS: u32 = 0x3727_c5ac;

/// Pixels of an image and the size at which the tower sees it.
#[derive(Debug)]
pub struct Input {
    pub rgb: Vec<u8>,
    pub w: usize,
    pub h: usize,
    pub tw: usize,
    pub th: usize,
}

/// An input, as a value.
pub struct Picture {
    pub rgb: Seq<u8>,
    pub w: usize,
    pub h: usize,
    pub tw: usize,
    pub th: usize,
}

impl View for Input {
    type V = Picture;

    open spec fn view(&self) -> Picture {
        Picture { rgb: self.rgb@, w: self.w, h: self.h, tw: self.tw, th: self.th }
    }
}

pub open spec fn pictures(images: Seq<Input>) -> Seq<Picture> {
    images.map_values(|i: Input| i@)
}

pub open spec fn patch_count(p: Picture) -> int {
    (p.tw as int / 14) * (p.th as int / 14)
}

/// Whole cells inside the tower's pixel limit.
pub open spec fn picture_wf(p: Picture) -> bool {
    &&& 0 < p.w <= 16384
    &&& 0 < p.h <= 16384
    &&& p.rgb.len() == p.w * p.h * 3
    &&& 28 <= p.tw <= 57344
    &&& 28 <= p.th <= 57344
    &&& p.tw % 28 == 0
    &&& p.th % 28 == 0
    &&& p.tw * p.th <= 1605632
}

pub open spec fn pictures_wf(s: Seq<Picture>) -> bool {
    forall|i: int| 0 <= i < s.len() ==> picture_wf(#[trigger] s[i])
}

/// Patches of the first `n` images.
pub open spec fn patches_before(s: Seq<Picture>, n: int) -> int
    decreases n,
{
    if n <= 0 {
        0
    } else {
        patches_before(s, n - 1) + patch_count(s[n - 1])
    }
}

/// An image gives whole merged cells of four patches.
pub proof fn patches_are_whole_cells(p: Picture)
    requires
        picture_wf(p),
    ensures
        patch_count(p) == 4 * ((p.tw as int / 28) * (p.th as int / 28)),
        4 <= patch_count(p) <= 8192,
{
    let a = p.tw as int / 28;
    let b = p.th as int / 28;
    assert(p.tw as int / 14 == 2 * a);
    assert(p.th as int / 14 == 2 * b);
    assert((2 * a) * (2 * b) == 4 * (a * b)) by (nonlinear_arith);
    assert(1 <= a * b && a * b * 784 <= 1605632) by (nonlinear_arith)
        requires
            1 <= a,
            1 <= b,
            (a * 28) * (b * 28) <= 1605632,
    ;
    assert(p.tw == a * 28 && p.th == b * 28);
}

proof fn lemma_patches(s: Seq<Picture>, a: int, b: int)
    requires
        0 <= a <= b <= s.len(),
        pictures_wf(s),
    ensures
        patches_before(s, a) + 4 * (b - a) <= patches_before(s, b),
        0 <= patches_before(s, a),
        patches_before(s, b) % 4 == 0,
    decreases b,
{
    if b > 0 {
        patches_are_whole_cells(s[b - 1]);
        if a < b {
            lemma_patches(s, a, b - 1);
        } else {
            lemma_patches(s, a - 1, b - 1);
        }
    }
}

impl Input {
    /// Patches of 14 pixels that the tower reads.
    pub fn patches(&self) -> (r: usize)
        requires
            (self.tw as int / 14) * (self.th as int / 14) <= usize::MAX,
        ensures
            r == patch_count(self@),
    {
        self.tw / 14 * (self.th / 14)
    }
}

/// Column and row of patch number `row`, in the order in which four patches
/// merge into one cell; `pw` patches stand in a line.
pub open spec fn patch_x(row: int, pw: int) -> int {
    row / 4 % (pw / 2) * 2 + row % 2
}

pub open spec fn patch_y(row: int, pw: int) -> int {
    row / 4 / (pw / 2) * 2 + row % 4 / 2
}

pub open spec fn patch_places(p: Picture, n: int) -> Seq<u32> {
    let pw = p.tw as int / 14;
    Seq::new(
        (2 * n) as nat,
        |i: int|
            if i % 2 == 0 {
                patch_x(i / 2, pw) as u32
            } else {
                patch_y(i / 2, pw) as u32
            },
    )
}

/// The merge order visits every patch of the image exactly once: column and
/// row stay inside the image and give the patch number back.
pub proof fn merge_order_is_a_permutation(p: Picture, row: int)
    requires
        picture_wf(p),
        0 <= row < patch_count(p),
    ensures
        ({
            let pw = p.tw as int / 14;
            let x = patch_x(row, pw);
            let y = patch_y(row, pw);
            &&& 0 <= x < pw
            &&& 0 <= y < p.th as int / 14
            &&& row == ((y / 2) * (pw / 2) + x / 2) * 4 + (y % 2) * 2 + x % 2
        }),
{
    patches_are_whole_cells(p);
    let a = p.tw as int / 28;
    let b = p.th as int / 28;
    let cell = row / 4;
    let pw = p.tw as int / 14;
    assert(pw / 2 == a);
    assert(cell < a * b);
    let cx = cell % a;
    let cy = cell / a;
    vstd::arithmetic::div_mod::lemma_fundamental_div_mod(cell, a);
    vstd::arithmetic::div_mod::lemma_mod_bound(cell, a);
    vstd::arithmetic::div_mod::lemma_div_pos_is_pos(cell, a);
    assert(cy < b) by (nonlinear_arith)
        requires
            cell == a * cy + cx,
            0 <= cx,
            cell < a * b,
            1 <= a,
    ;
    assert(a * cy == cy * a) by (nonlinear_arith);
    let x = patch_x(row, pw);
    let y = patch_y(row, pw);
    assert(x == cx * 2 + row % 2);
    assert(y == cy * 2 + row % 4 / 2);
    assert(x / 2 == cx && x % 2 == row % 2);
    assert(y / 2 == cy && y % 2 == row % 4 / 2);
    assert(row % 4 == (row % 4 / 2) * 2 + row % 2);
}

/// Attention tiles of one image: first row and count, and the image's own
/// rows.
pub open spec fn image_tiles(offset: int, count: int, q: int) -> Seq<u32>
    decreases max(count - q, 0),
{
    if q >= count {
        Seq::empty()
    } else {
        seq![(offset + q) as u32, min(count - q, 32) as u32, offset as u32, count as u32] + image_tiles(
            offset,
            count,
            q + 32,
        )
    }
}

pub open spec fn wave_places(s: Seq<Picture>, n: int) -> Seq<u32>
    decreases n,
{
    if n <= 0 {
        Seq::empty()
    } else {
        wave_places(s, n - 1) + patch_places(s[n - 1], patch_count(s[n - 1]))
    }
}

pub open spec fn wave_tiles(s: Seq<Picture>, n: int) -> Seq<u32>
    decreases n,
{
    if n <= 0 {
        Seq::empty()
    } else {
        wave_tiles(s, n - 1) + image_tiles(patches_before(s, n - 1), patch_count(s[n - 1]), 0)
    }
}

/// A wave in the tower.
#[derive(Debug)]
pub struct Job {
    pub sizes: Vec<usize>,
    pub rows: usize,
    pub layer: usize,
    pub x: Buffer,
    pub n: Buffer,
    pub q: Buffer,
    pub k: Buffer,
    pub v: Buffer,
    pub attn: Buffer,
    pub qh: Buffer,
    pub kh: Buffer,
    pub vh: Buffer,
    pub up: Buffer,
    pub output: Buffer,
    pub xy: Buffer,
    pub tiles: Buffer,
}

pub open spec fn total(sizes: Seq<usize>) -> int
    decreases sizes.len(),
{
    if sizes.len() == 0 {
        0
    } else {
        total(sizes.drop_last()) + sizes.last()
    }
}

impl Job {
    pub open spec fn wf(&self) -> bool {
        &&& 0 < self.rows <= MAX_PATCHES
        &&& self.layer <= 27
        &&& total(self.sizes@) == self.rows
        &&& self.tiles.len <= 16 * self.rows
    }

    /// The buffers in the order of allocation.
    pub open spec fn buffers(&self) -> Seq<Buffer> {
        seq![
            self.x,
            self.n,
            self.q,
            self.k,
            self.v,
            self.attn,
            self.qh,
            self.kh,
            self.vh,
            self.up,
            self.output,
            self.xy,
            self.tiles,
        ]
    }
}

/// Bytes of a wave's buffers; patch staging comes last.
pub open spec fn wave_bytes(rows: int, places: int, tiles: int) -> Seq<int> {
    seq![
        rows * 1152 * 4,
        rows * 1152 * 4,
        rows * 1152 * 4,
        rows * 1152 * 4,
        rows * 1152 * 4,
        rows * 1152 * 4,
        (rows + 64) * 1280 * 2,
        (rows + 64) * 1280 * 2,
        (rows + 64) * 1280 * 2,
        rows * 4304 * 4,
        rows / 4 * 1024 * 4,
        places * 4,
        tiles * 4,
        rows * 588 * 2,
    ]
}

/// Device storage to resample one image.
#[derive(Clone, Copy, Debug, PartialEq, Eq, Structural)]
pub struct Resample {
    pub cx: Buffer,
    pub cy: Buffer,
    pub src: Buffer,
    pub temp: Buffer,
}

/// Coefficients per output pixel when `from` pixels become `to`.
pub open spec fn taps(from: int, to: int) -> int {
    4 * ceil_div(from, to) + 4
}

pub open spec fn resample_of(p: Picture, id: int) -> Resample {
    let sx = taps(p.w as int, p.tw as int);
    let sy = taps(p.h as int, p.th as int);
    Resample {
        cx: Buffer { id: id as u32, len: (p.tw * sx * 4) as u64 },
        cy: Buffer { id: (id + 1) as u32, len: (p.th * sy * 4) as u64 },
        src: Buffer { id: (id + 2) as u32, len: p.rgb.len() as u64 },
        temp: Buffer { id: (id + 3) as u32, len: (p.tw * p.h * 3) as u64 },
    }
}

/// Resample one image and cut it into patches at row `offset`.
pub open spec fn resample_steps(p: Picture, r: Resample, patches: Buffer, offset: int) -> Seq<Step> {
    let sx = taps(p.w as int, p.tw as int);
    let sy = taps(p.h as int, p.th as int);
    seq![
        kernel(
            "gv_coeff"@,
            seq![r.cx],
            seq![p.w as u32, p.tw as u32, sx as u32],
            (ceil_div(p.tw as int, 256), 1, 1),
            256,
        ),
        kernel(
            "gv_coeff"@,
            seq![r.cy],
            seq![p.h as u32, p.th as u32, sy as u32],
            (ceil_div(p.th as int, 256), 1, 1),
            256,
        ),
        kernel(
            "gv_resize_h"@,
            seq![r.src, r.cx, r.temp],
            seq![p.w as u32, p.tw as u32, p.h as u32, sx as u32],
            (ceil_div(p.tw * p.h * 3, 256), 1, 1),
            256,
        ),
        kernel(
            "pocr_patches"@,
            seq![r.temp, r.cy, patches],
            seq![p.tw as u32, p.th as u32, sy as u32, offset as u32],
            (ceil_div(patch_count(p) * 588, 256), 1, 1),
            256,
        ),
    ]
}

/// Position rows of the first `n` images.
pub open spec fn position_steps(v: &Vision, x: Buffer, p: Seq<Step>, s: Seq<Picture>, n: int) -> Seq<Step>
    decreases n,
{
    if n <= 0 {
        p
    } else {
        let i = s[n - 1];
        position_steps(v, x, p, s, n - 1).push(
            kernel(
                "pocr_position"@,
                seq![x, v.pos.buffer],
                seq![
                    (i.tw as int / 14) as u32,
                    (i.th as int / 14) as u32,
                    patches_before(s, n - 1) as u32,
                ],
                (ceil_div(patch_count(i) * 1152, 256), 1, 1),
                256,
            ),
        )
    }
}

/// Project the patches and add their positions.
pub open spec fn embed_steps(v: &Vision, j: &Job, patches: Buffer, s: Seq<Picture>) -> Seq<Step> {
    let start = seq![
        kernel(
            "pocr_patch_mm"@,
            seq![v.patch.w.buffer, patches, j.x, v.patch.b.buffer],
            seq![588u32, 1152u32, j.rows as u32, 1u32],
            (18, ceil_div(j.rows as int, 32), 1),
            128,
        ),
    ];
    position_steps(v, j.x, start, s, s.len() as int)
}

/// A started wave: its job, the tables to upload and the programs to run in
/// order.
#[derive(Debug)]
pub struct Started {
    pub job: Job,
    pub places: Vec<u32>,
    pub tiles: Vec<u32>,
    pub patches: Buffer,
    pub resamples: Vec<Resample>,
    pub programs: Vec<Program>,
    pub embed: Program,
}

pub open spec fn started(v: &Vision, s: Seq<Picture>, first: u32, r: Started) -> bool {
    let n = s.len() as int;
    let rows = patches_before(s, n);
    let bytes = wave_bytes(rows, r.places.len() as int, r.tiles.len() as int);
    &&& r.job.wf()
    &&& r.job.rows == rows
    &&& r.job.layer == 0
    &&& r.job.sizes@ == Seq::new(s.len(), |i: int| patch_count(s[i]) as usize)
    &&& r.places@ == wave_places(s, n)
    &&& r.tiles@ == wave_tiles(s, n)
    &&& r.job.buffers() == Seq::new(
        13,
        |i: int| Buffer { id: (first + i) as u32, len: bytes[i] as u64 },
    )
    &&& r.patches == (Buffer { id: (first + 13) as u32, len: bytes[13] as u64 })
    &&& r.resamples@ == Seq::new(s.len(), |i: int| resample_of(s[i], first + 14 + 4 * i))
    &&& r.programs.len() == n
    &&& forall|i: int|
        0 <= i < n ==> (#[trigger] r.programs[i])@ == resample_steps(
            s[i],
            r.resamples[i],
            r.patches,
            patches_before(s, i),
        )
    &&& r.embed@ == embed_steps(v, &r.job, r.patches, s)
}

fn push_places(out: &mut Vec<u32>, p: &Input)
    requires
        picture_wf(p@),
    ensures
        final(out)@ == old(out)@ + patch_places(p@, patch_count(p@)),
{
    let ghost before = out@;
    let pw: usize = p.tw / 14;
    proof {
        patches_are_whole_cells(p@);
    }
    let count: usize = p.patches();
    let mut row: usize = 0;
    assert(out@ =~= before + patch_places(p@, 0));
    while row < count
        invariant
            row <= count,
            count == patch_count(p@),
            pw == p.tw as int / 14,
            pw >= 2,
            picture_wf(p@),
            out@ == before + patch_places(p@, row as int),
        decreases count - row,
    {
        proof {
            merge_order_is_a_permutation(p@, row as int);
        }
        let line: usize = pw / 2;
        let x: usize = row / 4 % line * 2 + row % 2;
        let cy: usize = row / 4 / line;
        assert(cy as int == (row as int / 4) / (pw as int / 2));
        let y: usize = cy * 2 + row % 4 / 2;
        out.push(x as u32);
        out.push(y as u32);
        proof {
            let next = patch_places(p@, row + 1);
            assert(next[2 * row] == x as u32);
            assert(next[2 * row + 1] == y as u32);
            assert(out@ =~= before + next);
        }
        row = row + 1;
    }
}

fn push_image_tiles(out: &mut Vec<u32>, offset: usize, count: usize)
    requires
        offset + count <= MAX_PATCHES,
    ensures
        final(out)@ == old(out)@ + image_tiles(offset as int, count as int, 0),
{
    let ghost whole = old(out)@ + image_tiles(offset as int, count as int, 0);
    let mut q: usize = 0;
    while q < count
        invariant
            offset + count <= MAX_PATCHES,
            q <= count + 32,
            out@ + image_tiles(offset as int, count as int, q as int) == whole,
        decreases max(count - q, 0),
    {
        let n: usize = if count - q > 32 { 32 } else { count - q };
        let ghost before = out@;
        let ghost quad = seq![(offset + q) as u32, n as u32, offset as u32, count as u32];
        out.push((offset + q) as u32);
        out.push(n as u32);
        out.push(offset as u32);
        out.push(count as u32);
        proof {
            assert(out@ =~= before + quad);
            assert(out@ + image_tiles(offset as int, count as int, q + 32) =~= before + (quad
                + image_tiles(offset as int, count as int, q + 32)));
        }
        q = q + 32;
    }
    assert(image_tiles(offset as int, count as int, q as int) =~= Seq::<u32>::empty());
    assert(out@ =~= whole);
}

proof fn lemma_tile_count(offset: int, count: int, q: int)
    requires
        0 <= q,
    ensures
        image_tiles(offset, count, q).len() <= 4 * max(count - q, 0),
        image_tiles(offset, count, q).len() % 4 == 0,
    decreases max(count - q, 0),
{
    if q < count {
        lemma_tile_count(offset, count, q + 32);
    }
}

proof fn lemma_wave_tables(s: Seq<Picture>, n: int)
    requires
        0 <= n <= s.len(),
        pictures_wf(s),
    ensures
        wave_places(s, n).len() == 2 * patches_before(s, n),
        wave_tiles(s, n).len() <= 4 * patches_before(s, n),
        wave_tiles(s, n).len() % 4 == 0,
    decreases n,
{
    if n > 0 {
        lemma_wave_tables(s, n - 1);
        patches_are_whole_cells(s[n - 1]);
        lemma_tile_count(patches_before(s, n - 1), patch_count(s[n - 1]), 0);
    }
}

fn tap_count(from: usize, to: usize) -> (r: usize)
    requires
        from <= 16384,
        28 <= to,
    ensures
        r == taps(from as int, to as int),
        r <= 65540,
{
    4 * div_ceil(from, to) + 4
}

fn resample(p: &Input, id: u32) -> (r: Resample)
    requires
        picture_wf(p@),
        id <= 0xf000_0000,
    ensures
        r == resample_of(p@, id as int),
{
    let sx: u64 = tap_count(p.w, p.tw) as u64;
    let sy: u64 = tap_count(p.h, p.th) as u64;
    let tw: u64 = p.tw as u64;
    let th: u64 = p.th as u64;
    proof {
        lemma_product_bound(tw as int, sx as int, 57344, 65540);
        lemma_product_bound(th as int, sy as int, 57344, 65540);
        lemma_product_bound(tw as int, p.h as int, 57344, 16384);
    }
    Resample {
        cx: Buffer { id, len: tw * sx * 4 },
        cy: Buffer { id: id + 1, len: th * sy * 4 },
        src: Buffer { id: id + 2, len: p.rgb.len() as u64 },
        temp: Buffer { id: id + 3, len: tw * p.h as u64 * 3 },
    }
}

fn resample_program(p: &Input, r: Resample, patches: Buffer, offset: usize) -> (cmd: Program)
    requires
        picture_wf(p@),
    ensures
        cmd@ == resample_steps(p@, r, patches, offset as int),
{
    let sx: u32 = tap_count(p.w, p.tw) as u32;
    let sy: u32 = tap_count(p.h, p.th) as u32;
    proof {
        patches_are_whole_cells(p@);
        lemma_product_bound(p.tw as int, p.h as int, 57344, 16384);
    }
    let mut cmd = Program::new();
    cmd.dispatch(
        "gv_coeff",
        list1(r.cx),
        list3(p.w as u32, p.tw as u32, sx),
        (div_ceil(p.tw, 256), 1, 1),
        256,
    );
    cmd.dispatch(
        "gv_coeff",
        list1(r.cy),
        list3(p.h as u32, p.th as u32, sy),
        (div_ceil(p.th, 256), 1, 1),
        256,
    );
    cmd.dispatch(
        "gv_resize_h",
        list3(r.src, r.cx, r.temp),
        list4(p.w as u32, p.tw as u32, p.h as u32, sx),
        (div_ceil(p.tw * p.h * 3, 256), 1, 1),
        256,
    );
    cmd.dispatch(
        "pocr_patches",
        list3(r.temp, r.cy, patches),
        list4(p.tw as u32, p.th as u32, sy, offset as u32),
        (div_ceil(p.patches() * 588, 256), 1, 1),
        256,
    );
    assert(cmd@ =~= resample_steps(p@, r, patches, offset as int));
    cmd
}

/// Rows of a wave, or none where they exceed one wave.
pub fn count_patches(images: &Vec<Input>) -> (r: Option<usize>)
    requires
        pictures_wf(pictures(images@)),
    ensures
        match r {
            Some(n) => n == patches_before(pictures(images@), images.len() as int) && n <= MAX_PATCHES,
            None => patches_before(pictures(images@), images.len() as int) > MAX_PATCHES,
        },
{
    let ghost s = pictures(images@);
    let mut n: usize = 0;
    let mut i: usize = 0;
    while i < images.len()
        invariant
            i <= images.len(),
            s == pictures(images@),
            pictures_wf(s),
            n == patches_before(s, i as int),
            n <= MAX_PATCHES,
        decreases images.len() - i,
    {
        proof {
            assert(s[i as int] == images[i as int]@);
            patches_are_whole_cells(s[i as int]);
            lemma_patches(s, i + 1, images.len() as int);
        }
        n = n + images[i].patches();
        if n > MAX_PATCHES {
            return None;
        }
        i = i + 1;
    }
    Some(n)
}

impl Vision {
    fn embed(&self, j: &Job, patches: Buffer, images: &Vec<Input>) -> (cmd: Program)
        requires
            pictures_wf(pictures(images@)),
            patches_before(pictures(images@), images.len() as int) <= MAX_PATCHES,
        ensures
            cmd@ == embed_steps(self, j, patches, pictures(images@)),
    {
        let ghost s = pictures(images@);
        let mut cmd = Program::new();
        cmd.dispatch(
            "pocr_patch_mm",
            list4(self.patch.w.buffer, patches, j.x, self.patch.b.buffer),
            list4(588, E as u32, j.rows as u32, 1),
            (18, div_ceil(j.rows, 32), 1),
            128,
        );
        let ghost start = cmd@;
        assert(start =~= embed_steps(self, j, patches, s.take(0)));
        let mut offset: usize = 0;
        let mut i: usize = 0;
        while i < images.len()
            invariant
                i <= images.len(),
                s == pictures(images@),
                pictures_wf(s),
                patches_before(s, images.len() as int) <= MAX_PATCHES,
                offset == patches_before(s, i as int),
                cmd@ == position_steps(self, j.x, start, s, i as int),
            decreases images.len() - i,
        {
            let p = &images[i];
            proof {
                assert(s[i as int] == p@);
                patches_are_whole_cells(p@);
                lemma_patches(s, i + 1, images.len() as int);
            }
            cmd.dispatch(
                "pocr_position",
                list2(j.x, self.pos.buffer),
                list3((p.tw / 14) as u32, (p.th / 14) as u32, offset as u32),
                (div_ceil(p.patches() * E, 256), 1, 1),
                256,
            );
            offset = offset + p.patches();
            i = i + 1;
        }
        cmd
    }

    /// Start a wave. Its buffers are the allocations from `first` on.
    pub fn start(&self, images: &Vec<Input>, first: u32) -> (r: Result<Started, MetalError>)
        requires
            pictures_wf(pictures(images@)),
            first <= 0x7fff_ffff,
        ensures
            ({
                let s = pictures(images@);
                let rows = patches_before(s, s.len() as int);
                if rows == 0 || rows > MAX_PATCHES {
                    r == Err::<Started, MetalError>(MetalError::Model(Fault::Patches))
                } else {
                    r matches Ok(w) && started(self, s, first, w)
                }
            }),
    {
        let ghost s = pictures(images@);
        let rows: usize = match count_patches(images) {
            Some(n) => n,
            None => {
                return Err(MetalError::Model(Fault::Patches));
            },
        };
        if rows == 0 {
            return Err(MetalError::Model(Fault::Patches));
        }
        let mut places: Vec<u32> = Vec::new();
        let mut tiles: Vec<u32> = Vec::new();
        let mut sizes: Vec<usize> = Vec::new();
        let mut resamples: Vec<Resample> = Vec::new();
        let mut programs: Vec<Program> = Vec::new();
        let patches = Buffer { id: first + 13, len: rows as u64 * 588 * 2 };
        let mut offset: usize = 0;
        let mut i: usize = 0;
        proof {
            lemma_patches(s, 0, images.len() as int);
        }
        while i < images.len()
            invariant
                i <= images.len() <= MAX_PATCHES,
                s == pictures(images@),
                pictures_wf(s),
                rows == patches_before(s, images.len() as int),
                rows <= MAX_PATCHES,
                first <= 0x7fff_ffff,
                offset == patches_before(s, i as int),
                places@ == wave_places(s, i as int),
                tiles@ == wave_tiles(s, i as int),
                sizes@ == Seq::new(i as nat, |i: int| patch_count(s[i]) as usize),
                total(sizes@) == offset,
                resamples@ == Seq::new(i as nat, |i: int| resample_of(s[i], first + 14 + 4 * i)),
                programs.len() == i,
                forall|k: int|
                    0 <= k < i ==> (#[trigger] programs[k])@ == resample_steps(
                        s[k],
                        resamples[k],
                        patches,
                        patches_before(s, k),
                    ),
            decreases images.len() - i,
        {
            let p = &images[i];
            proof {
                assert(s[i as int] == p@);
                patches_are_whole_cells(p@);
                lemma_patches(s, i + 1, images.len() as int);
            }
            push_places(&mut places, p);
            let count: usize = p.patches();
            push_image_tiles(&mut tiles, offset, count);
            let ghost before = sizes@;
            sizes.push(count);
            let r = resample(p, first + 14 + 4 * i as u32);
            resamples.push(r);
            programs.push(resample_program(p, r, patches, offset));
            proof {
                assert(sizes@.drop_last() =~= before);
                assert(sizes@ =~= Seq::new((i + 1) as nat, |i: int| patch_count(s[i]) as usize));
                assert(resamples@ =~= Seq::new(
                    (i + 1) as nat,
                    |i: int| resample_of(s[i], first + 14 + 4 * i),
                ));
            }
            offset = offset + count;
            i = i + 1;
        }
        proof {
            lemma_wave_tables(s, images.len() as int);
        }
        let slab: u64 = rows as u64 * 1152 * 4;
        let heads: u64 = (rows as u64 + 64) * 1280 * 2;
        let job = Job {
            sizes,
            rows,
            layer: 0,
            x: Buffer { id: first, len: slab },
            n: Buffer { id: first + 1, len: slab },
            q: Buffer { id: first + 2, len: slab },
            k: Buffer { id: first + 3, len: slab },
            v: Buffer { id: first + 4, len: slab },
            attn: Buffer { id: first + 5, len: slab },
            qh: Buffer { id: first + 6, len: heads },
            kh: Buffer { id: first + 7, len: heads },
            vh: Buffer { id: first + 8, len: heads },
            up: Buffer { id: first + 9, len: rows as u64 * 4304 * 4 },
            output: Buffer { id: first + 10, len: rows as u64 / 4 * 1024 * 4 },
            xy: Buffer { id: first + 11, len: places.len() as u64 * 4 },
            tiles: Buffer { id: first + 12, len: tiles.len() as u64 * 4 },
        };
        let ghost bytes = wave_bytes(rows as int, places.len() as int, tiles.len() as int);
        assert(job.buffers() =~= Seq::new(
            13,
            |i: int| Buffer { id: (first + i) as u32, len: bytes[i] as u64 },
        ));
        let embed = self.embed(&job, patches, images);
        Ok(Started { job, places, tiles, patches, resamples, programs, embed })
    }
}

pub open spec fn ln_step(w: Norm, x: Buffer, y: Buffer, rows: int, eps: u32) -> Step {
    kernel("vis_ln"@, seq![x, w.w.buffer, w.b.buffer, y], seq![1152u32, eps], (rows, 1, 1), 256)
}

/// A biased projection; the mode names the activation.
pub open spec fn mm_step(w: Linear, x: Buffer, y: Buffer, rows: int, mode: u32) -> Step {
    kernel(
        "vis_bmm32"@,
        seq![w.w.buffer, x, y, w.b.buffer],
        seq![w.w.k as u32, w.w.n as u32, rows as u32, mode],
        (ceil_div(w.w.n as int, 64), ceil_div(rows, 32), 1),
        128,
    )
}

pub open spec fn head_steps(p: Seq<Step>, j: &Job, w: Linear, plane: Buffer, heads: Buffer, rotate: u32) -> Seq<
    Step,
> {
    p.push(mm_step(w, j.n, plane, j.rows as int, 1)).push(
        kernel(
            "pocr_heads"@,
            seq![plane, heads, j.xy],
            seq![j.rows as u32, rotate],
            (ceil_div((j.rows + 64) * 1280, 256), 1, 1),
            256,
        ),
    )
}

/// One tower block.
pub open spec fn block_steps(j: &Job, l: Block) -> Seq<Step> {
    let rows = j.rows as int;
    let p = seq![ln_step(l.ln1, j.x, j.n, rows, EPS)];
    let p = head_steps(p, j, l.q, j.q, j.qh, 1);
    let p = head_steps(p, j, l.k, j.k, j.kh, 1);
    let p = head_steps(p, j, l.v, j.v, j.vh, 0);
    p.push(
        kernel(
            "pocr_attention"@,
            seq![j.qh, j.kh, j.vh, j.attn, j.tiles],
            seq![0u32],
            (16, j.tiles.len as int / 16, 1),
            64,
        ),
    ).push(mm_step(l.o, j.attn, j.x, rows, 2)).push(ln_step(l.ln2, j.x, j.n, rows, EPS)).push(
        mm_step(l.up, j.n, j.up, rows, 3),
    ).push(mm_step(l.down, j.up, j.x, rows, 2))
}

/// The rows of image `i` and where they are copied.
pub open spec fn output_of(sizes: Seq<usize>, first: int, i: int) -> Buffer {
    Buffer { id: (first + i) as u32, len: (sizes[i] as int / 4 * 1024 * 4) as u64 }
}

/// Cells of the first `n` images.
pub open spec fn cells_before(sizes: Seq<usize>, n: int) -> int
    decreases n,
{
    if n <= 0 {
        0
    } else {
        cells_before(sizes, n - 1) + sizes[n - 1] as int / 4
    }
}

pub open spec fn extract_steps(p: Seq<Step>, j: &Job, first: int, n: int) -> Seq<Step>
    decreases n,
{
    if n <= 0 {
        p
    } else {
        let cells = j.sizes[n - 1] as int / 4;
        extract_steps(p, j, first, n - 1).push(
            kernel(
                "pocr_extract"@,
                seq![j.output, output_of(j.sizes@, first, n - 1)],
                seq![cells_before(j.sizes@, n - 1) as u32, cells as u32],
                (ceil_div(cells * 1024, 256), 1, 1),
                256,
            ),
        )
    }
}

/// The projector, after the last block, and one copy per image.
pub open spec fn project_steps(v: &Vision, j: &Job, first: int) -> Seq<Step> {
    let rows = j.rows as int;
    let p = seq![ln_step(v.post, j.x, j.n, rows, EPS)].push(
        ln_step(v.pre, j.n, j.x, rows, INPUT_EPS),
    ).push(mm_step(v.up, j.x, j.up, rows / 4, 1)).push(
        kernel(
            "pocr_gelu"@,
            seq![j.up],
            seq![(rows * 1152) as u32],
            (ceil_div(rows * 1152, 256), 1, 1),
            256,
        ),
    ).push(mm_step(v.down, j.up, j.output, rows / 4, 1));
    extract_steps(p, j, first, j.sizes.len() as int)
}

fn ln(cmd: &mut Program, w: Norm, x: Buffer, y: Buffer, rows: usize, eps: u32)
    ensures
        final(cmd)@ == old(cmd)@.push(ln_step(w, x, y, rows as int, eps)),
{
    cmd.dispatch(
        "vis_ln",
        list4(x, w.w.buffer, w.b.buffer, y),
        list2(E as u32, eps),
        (rows, 1, 1),
        256,
    );
}

fn mm(cmd: &mut Program, w: Linear, x: Buffer, y: Buffer, rows: usize, mode: u32)
    ensures
        final(cmd)@ == old(cmd)@.push(mm_step(w, x, y, rows as int, mode)),
{
    cmd.dispatch(
        "vis_bmm32",
        list4(w.w.buffer, x, y, w.b.buffer),
        list4(w.w.k as u32, w.w.n as u32, rows as u32, mode),
        (div_ceil(w.w.n, 64), div_ceil(rows, 32), 1),
        128,
    );
}

impl Job {
    fn heads(&self, cmd: &mut Program, w: Linear, plane: Buffer, heads: Buffer, rotate: u32)
        requires
            self.wf(),
        ensures
            final(cmd)@ == head_steps(old(cmd)@, self, w, plane, heads, rotate),
    {
        mm(cmd, w, self.n, plane, self.rows, 1);
        cmd.dispatch(
            "pocr_heads",
            list3(plane, heads, self.xy),
            list2(self.rows as u32, rotate),
            (div_ceil((self.rows + 64) * 1280, 256), 1, 1),
            256,
        );
    }

    /// A block has finished.
    pub fn advance(&mut self)
        requires
            old(self).wf(),
            old(self).layer < 27,
        ensures
            final(self).wf(),
            final(self).layer == old(self).layer + 1,
            final(self).sizes == old(self).sizes,
            final(self).rows == old(self).rows,
            final(self).buffers() == old(self).buffers(),
    {
        self.layer = self.layer + 1;
    }
}

proof fn lemma_total(sizes: Seq<usize>, n: int)
    requires
        0 <= n <= sizes.len(),
    ensures
        0 <= total(sizes.take(n)) <= total(sizes),
        0 <= cells_before(sizes, n) <= total(sizes.take(n)),
    decreases n, sizes.len(),
{
    if n > 0 {
        lemma_total(sizes, n - 1);
        assert(sizes.take(n).drop_last() =~= sizes.take(n - 1));
    }
    lemma_take_total(sizes, n);
}

proof fn lemma_take_total(sizes: Seq<usize>, n: int)
    requires
        0 <= n <= sizes.len(),
    ensures
        total(sizes.take(n)) <= total(sizes),
    decreases sizes.len() - n,
{
    if n < sizes.len() {
        lemma_take_total(sizes, n + 1);
        assert(sizes.take(n + 1).drop_last() =~= sizes.take(n));
    } else {
        assert(sizes.take(n) =~= sizes);
    }
}

impl Vision {
    fn block(&self, j: &Job) -> (cmd: Program)
        requires
            self.wf(),
            j.wf(),
            j.layer < 27,
        ensures
            cmd@ == block_steps(j, self.blocks[j.layer as int]),
    {
        let l = self.blocks[j.layer];
        let rows: usize = j.rows;
        let mut cmd = Program::new();
        ln(&mut cmd, l.ln1, j.x, j.n, rows, EPS);
        assert(cmd@ =~= seq![ln_step(l.ln1, j.x, j.n, rows as int, EPS)]);
        j.heads(&mut cmd, l.q, j.q, j.qh, 1);
        j.heads(&mut cmd, l.k, j.k, j.kh, 1);
        j.heads(&mut cmd, l.v, j.v, j.vh, 0);
        cmd.dispatch(
            "pocr_attention",
            list5(j.qh, j.kh, j.vh, j.attn, j.tiles),
            list1(0),
            (16, (j.tiles.len / 16) as usize, 1),
            64,
        );
        mm(&mut cmd, l.o, j.attn, j.x, rows, 2);
        ln(&mut cmd, l.ln2, j.x, j.n, rows, EPS);
        mm(&mut cmd, l.up, j.n, j.up, rows, 3);
        mm(&mut cmd, l.down, j.up, j.x, rows, 2);
        cmd
    }

    fn project(&self, j: &Job, first: u32) -> (r: (Program, Vec<Buffer>))
        requires
            j.wf(),
            first <= 0x7fff_ffff,
            j.sizes.len() <= MAX_PATCHES,
        ensures
            r.0@ == project_steps(self, j, first as int),
            r.1@ == Seq::new(j.sizes.len() as nat, |i: int| output_of(j.sizes@, first as int, i)),
    {
        let rows: usize = j.rows;
        let mut cmd = Program::new();
        ln(&mut cmd, self.post, j.x, j.n, rows, EPS);
        assert(cmd@ =~= seq![ln_step(self.post, j.x, j.n, rows as int, EPS)]);
        ln(&mut cmd, self.pre, j.n, j.x, rows, INPUT_EPS);
        mm(&mut cmd, self.up, j.x, j.up, rows / 4, 1);
        cmd.dispatch(
            "pocr_gelu",
            list1(j.up),
            list1((rows * E) as u32),
            (div_ceil(rows * E, 256), 1, 1),
            256,
        );
        mm(&mut cmd, self.down, j.up, j.output, rows / 4, 1);
        let ghost start = cmd@;
        let mut out: Vec<Buffer> = Vec::new();
        let mut offset: usize = 0;
        let mut i: usize = 0;
        while i < j.sizes.len()
            invariant
                i <= j.sizes.len() <= MAX_PATCHES,
                j.wf(),
                first <= 0x7fff_ffff,
                offset == cells_before(j.sizes@, i as int),
                offset <= MAX_PATCHES,
                cmd@ == extract_steps(start, j, first as int, i as int),
                out@ == Seq::new(i as nat, |i: int| output_of(j.sizes@, first as int, i)),
            decreases j.sizes.len() - i,
        {
            proof {
                lemma_total(j.sizes@, i + 1);
                lemma_total(j.sizes@, i as int);
                assert(j.sizes@.take(i + 1).drop_last() =~= j.sizes@.take(i as int));
                assert(j.sizes@.take(i + 1).last() == j.sizes[i as int]);
            }
            let cells: usize = j.sizes[i] / 4;
            let b = Buffer { id: first + i as u32, len: cells as u64 * 1024 * 4 };
            cmd.dispatch(
                "pocr_extract",
                list2(j.output, b),
                list2(offset as u32, cells as u32),
                (div_ceil(cells * WIDTH, 256), 1, 1),
                256,
            );
            out.push(b);
            assert(out@ =~= Seq::new(
                (i + 1) as nat,
                |i: int| output_of(j.sizes@, first as int, i),
            ));
            offset = offset + cells;
            i = i + 1;
        }
        (cmd, out)
    }

    /// The next step of a wave: one block, or the projector, which names the
    /// buffer of each image.
    pub fn step(&self, j: &Job, first: u32) -> (r: (Program, Option<Vec<Buffer>>))
        requires
            self.wf(),
            j.wf(),
            first <= 0x7fff_ffff,
            j.sizes.len() <= MAX_PATCHES,
        ensures
            if j.layer < 27 {
                r.0@ == block_steps(j, self.blocks[j.layer as int]) && r.1 is None
            } else {
                &&& r.0@ == project_steps(self, j, first as int)
                &&& r.1 matches Some(out)
                &&& out@ == Seq::new(
                    j.sizes.len() as nat,
                    |i: int| output_of(j.sizes@, first as int, i),
                )
            },
    {
        if j.layer < DEPTH {
            (self.block(j), None)
        } else {
            let (cmd, out) = self.project(j, first);
            (cmd, Some(out))
        }
    }
}

} // verus!
