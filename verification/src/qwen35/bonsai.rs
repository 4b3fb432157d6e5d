//! Native packed ternary lane. Inputs of ternary planes are rotated once per
//! projection; unquantised gates keep the plain input.
use vstd::prelude::*;
use std::collections::BTreeMap;
use crate::arith::{ceil_div, div_ceil};
use crate::program::{
    kernel, kernel_at, list2, list3, list4, list5, list7, nth, nth_name, Buffer, Plane, Program,
    RowSpan, Step, Weight,
};
use crate::qwen35::graph::{covers, CHUNK};

verus! {

broadcast use vstd::std_specs::btree::group_btree_axioms;

/// Format code of two-bit ternary planes.
pub const AFFINE2: u32 = 0x102;

/// Input widths that have a sign vector.
pub open spec fn rotated_width(k: int) -> bool {
    k == 5120 || k == 6144 || k == 17408
}

#[derive(Debug)]
pub struct Bonsai {
    pub signs: BTreeMap<usize, Buffer>,
    pub rotated: Buffer,
}

/// Leading ternary planes.
pub open spec fn packed_prefix(planes: Seq<Plane>) -> int
    decreases planes.len(),
{
    if planes.len() == 0 || planes[0].weight.ty != AFFINE2 {
        0
    } else {
        1 + packed_prefix(planes.drop_first())
    }
}

pub open spec fn any_packed(planes: Seq<Plane>) -> bool {
    exists|i: int| 0 <= i < planes.len() && (#[trigger] planes[i]).weight.ty == AFFINE2
}

/// Kernel, columns and rows of the tile for one plane.
pub open spec fn span_kernel(packed: bool, n: int, rows: int, prefill: bool, accelerated: bool) -> (
    Seq<char>,
    int,
    int,
) {
    if prefill && packed {
        if rows <= 16 {
            ("bonsai_prefill16"@, 32, 16)
        } else if rows <= 32 {
            ("bonsai_prefill32"@, 32, 32)
        } else {
            ("bonsai_prefill64"@, 32, 64)
        }
    } else if prefill {
        ("bonsai_mm32"@, 16, 32)
    } else if packed && accelerated && rows <= 4 {
        (
            nth_name(rows, ("bonsai_full1"@, "bonsai_full2"@, "bonsai_full3"@, "bonsai_full4"@)),
            16,
            rows,
        )
    } else if packed && accelerated && n >= 5120 {
        if rows <= 32 {
            ("bonsai_tile32x32x64"@, 32, 32)
        } else {
            ("bonsai_tile64x32x64"@, 32, 64)
        }
    } else if rows == 1 {
        ("bonsai_vectors1"@, 16, 1)
    } else if rows <= 4 {
        ("bonsai_vectors4"@, 16, 4)
    } else if rows <= 32 {
        ("bonsai_mm32"@, 16, 32)
    } else {
        ("bonsai_mm64"@, 16, 64)
    }
}

fn span_election(packed: bool, n: usize, rows: usize, prefill: bool, accelerated: bool) -> (r: (
    &'static str,
    usize,
    usize,
))
    requires
        1 <= rows,
    ensures
        (r.0@, r.1 as int, r.2 as int) == span_kernel(packed, n as int, rows as int, prefill, accelerated),
        0 < r.1,
        0 < r.2,
{
    if prefill && packed {
        if rows <= 16 {
            ("bonsai_prefill16", 32, 16)
        } else if rows <= 32 {
            ("bonsai_prefill32", 32, 32)
        } else {
            ("bonsai_prefill64", 32, 64)
        }
    } else if prefill {
        ("bonsai_mm32", 16, 32)
    } else if packed && accelerated && rows <= 4 {
        (nth(rows, "bonsai_full1", "bonsai_full2", "bonsai_full3", "bonsai_full4"), 16, rows)
    } else if packed && accelerated && n >= 5120 {
        if rows <= 32 {
            ("bonsai_tile32x32x64", 32, 32)
        } else {
            ("bonsai_tile64x32x64", 32, 64)
        }
    } else if rows == 1 {
        ("bonsai_vectors1", 16, 1)
    } else if rows <= 4 {
        ("bonsai_vectors4", 16, 4)
    } else if rows <= 32 {
        ("bonsai_mm32", 16, 32)
    } else {
        ("bonsai_mm64", 16, 64)
    }
}

impl Bonsai {
    /// Every rotated width has its signs.
    pub open spec fn wf(self) -> bool {
        &&& self.signs@.dom().contains(5120usize)
        &&& self.signs@.dom().contains(6144usize)
        &&& self.signs@.dom().contains(17408usize)
    }

    /// The products of one plane over rows `first..first + rows`.
    pub open spec fn plane_step(
        self,
        plane: Plane,
        input: Buffer,
        first: usize,
        rows: usize,
        prefill: bool,
        accelerated: bool,
    ) -> Step {
        let w = plane.weight;
        let packed = w.ty == AFFINE2;
        let (name, columns, tile) = span_kernel(packed, w.n as int, rows as int, prefill, accelerated);
        kernel_at(
            name,
            seq![w.buffer, if packed { self.rotated } else { input }, plane.out],
            seq![0usize, (first * w.k * 4) as usize, (first * w.n * 4) as usize],
            seq![w.k as u32, w.n as u32, rows as u32, w.ty],
            (ceil_div(w.n as int, columns), ceil_div(rows as int, tile), 1),
            128,
        )
    }

    /// Two or three leading ternary planes of a narrow decode span run fused.
    pub open spec fn fuses(planes: Seq<Plane>, rows: int, prefill: bool, accelerated: bool) -> bool {
        !prefill && accelerated && rows <= 4 && 2 <= packed_prefix(planes) <= 3
    }

    pub open spec fn fused_step(self, planes: Seq<Plane>, first: usize, rows: usize) -> Step {
        let packed = packed_prefix(planes);
        let a = planes[0];
        let b = planes[1];
        let c = if packed == 3 { planes[2] } else { planes[1] };
        let k = a.weight.k;
        kernel_at(
            nth_name(
                rows as int,
                ("bonsai_multi1"@, "bonsai_multi2"@, "bonsai_multi3"@, "bonsai_multi4"@),
            ),
            seq![
                a.weight.buffer,
                b.weight.buffer,
                c.weight.buffer,
                self.rotated,
                a.out,
                b.out,
                c.out,
            ],
            seq![
                0usize,
                0usize,
                0usize,
                (first * k * 4) as usize,
                (first * a.weight.n * 4) as usize,
                (first * b.weight.n * 4) as usize,
                (first * c.weight.n * 4) as usize,
            ],
            seq![
                k as u32,
                a.weight.n as u32,
                b.weight.n as u32,
                if packed == 3 { c.weight.n as u32 } else { 0u32 },
                rows as u32,
            ],
            (
                ceil_div(a.weight.n as int, 16) + ceil_div(b.weight.n as int, 16) + if packed == 3 {
                    ceil_div(c.weight.n as int, 16)
                } else {
                    0
                },
                1,
                1,
            ),
            128,
        )
    }

    /// Planes `from..to`, one launch each.
    pub open spec fn plane_steps(
        self,
        p: Seq<Step>,
        planes: Seq<Plane>,
        from: int,
        to: int,
        input: Buffer,
        first: usize,
        rows: usize,
        prefill: bool,
        accelerated: bool,
    ) -> Seq<Step>
        decreases to - from,
    {
        if to <= from {
            p
        } else {
            self.plane_steps(p, planes, from, to - 1, input, first, rows, prefill, accelerated).push(
                self.plane_step(planes[to - 1], input, first, rows, prefill, accelerated),
            )
        }
    }

    pub open spec fn span_steps(
        self,
        p: Seq<Step>,
        planes: Seq<Plane>,
        input: Buffer,
        first: usize,
        rows: usize,
        prefill: bool,
        accelerated: bool,
    ) -> Seq<Step> {
        let n = planes.len() as int;
        if Self::fuses(planes, rows as int, prefill, accelerated) {
            self.plane_steps(
                p.push(self.fused_step(planes, first, rows)),
                planes,
                packed_prefix(planes),
                n,
                input,
                first,
                rows,
                prefill,
                accelerated,
            )
        } else {
            self.plane_steps(p, planes, 0, n, input, first, rows, prefill, accelerated)
        }
    }

    /// Every span in order, each with the arithmetic of its role.
    pub open spec fn spans_steps(
        self,
        p: Seq<Step>,
        planes: Seq<Plane>,
        input: Buffer,
        spans: Seq<RowSpan>,
        accelerated: bool,
    ) -> Seq<Step>
        decreases spans.len(),
    {
        if spans.len() == 0 {
            p
        } else {
            let s = spans.last();
            self.span_steps(
                self.spans_steps(p, planes, input, spans.drop_last(), accelerated),
                planes,
                input,
                s.first,
                s.count,
                s.role == CHUNK,
                accelerated,
            )
        }
    }

    /// Rotate the input once if any plane is ternary, then project by span.
    pub open spec fn project_steps(
        self,
        p: Seq<Step>,
        planes: Seq<Plane>,
        input: Buffer,
        rows: usize,
        spans: Seq<RowSpan>,
        accelerated: bool,
    ) -> Seq<Step> {
        let k = planes[0].weight.k;
        let p = if any_packed(planes) {
            p.push(
                kernel(
                    "bonsai_rotate"@,
                    seq![input, self.signs@[k], self.rotated],
                    seq![k as u32, rows as u32],
                    (k as int / 1024, rows as int, 1),
                    256,
                ),
            )
        } else {
            p
        };
        if spans.len() > 0 {
            self.spans_steps(p, planes, input, spans, accelerated)
        } else {
            self.span_steps(p, planes, input, 0, rows, false, accelerated)
        }
    }

    pub open spec fn embed_step(self, weight: Weight, ids: Buffer, output: Buffer, rows: usize) -> Step {
        kernel(
            "bonsai_embed"@,
            seq![weight.buffer, ids, self.signs@[weight.k], output],
            seq![weight.k as u32, weight.n as u32, rows as u32],
            (weight.k as int / 1024, rows as int, 1),
            256,
        )
    }

    fn sign(&self, k: usize) -> (r: Buffer)
        requires
            self.signs@.dom().contains(k),
        ensures
            r == self.signs@[k],
    {
        *self.signs.get(&k).unwrap()
    }

    pub fn embed(&self, cmd: &mut Program, weight: Weight, ids: Buffer, output: Buffer, rows: usize)
        requires
            self.signs@.dom().contains(weight.k),
        ensures
            final(cmd)@ == old(cmd)@.push(self.embed_step(weight, ids, output, rows)),
    {
        cmd.dispatch(
            "bonsai_embed",
            list4(weight.buffer, ids, self.sign(weight.k), output),
            list3(weight.k as u32, weight.n as u32, rows as u32),
            (weight.k / 1024, rows, 1),
            256,
        );
    }

    /// Project planes of one common input width. Spans, where given, cover
    /// the rows and keep each row's arithmetic independent of its peers.
    pub fn project(
        &self,
        cmd: &mut Program,
        planes: &Vec<Plane>,
        input: Buffer,
        rows: usize,
        spans: &Vec<RowSpan>,
        accelerated: bool,
    )
        requires
            0 < planes.len(),
            1 <= rows <= CHUNK,
            narrow(planes@),
            self.signs@.dom().contains(planes[0].weight.k),
            spans.len() > 0 ==> covers(spans@, rows as int),
        ensures
            final(cmd)@ == self.project_steps(old(cmd)@, planes@, input, rows, spans@, accelerated),
    {
        let k: usize = planes[0].weight.k;
        let mut rotate = false;
        let mut i: usize = 0;
        while i < planes.len()
            invariant
                i <= planes.len(),
                rotate == exists|j: int| 0 <= j < i && (#[trigger] planes[j]).weight.ty == AFFINE2,
            decreases planes.len() - i,
        {
            if planes[i].weight.ty == AFFINE2 {
                rotate = true;
            }
            i = i + 1;
        }
        if rotate {
            cmd.dispatch(
                "bonsai_rotate",
                list3(input, self.sign(k), self.rotated),
                list2(k as u32, rows as u32),
                (k / 1024, rows, 1),
                256,
            );
        }
        if spans.len() > 0 {
            let ghost start = cmd@;
            let mut s: usize = 0;
            assert(spans@.take(0) =~= Seq::<RowSpan>::empty());
            assert(spans@.take(spans.len() as int) =~= spans@);
            while s < spans.len()
                invariant
                    s <= spans.len(),
                    0 < planes.len(),
                    narrow(planes@),
                    rows <= CHUNK,
                    spans@.take(spans.len() as int) =~= spans@,
                    covers(spans@, rows as int),
                    cmd@ == self.spans_steps(start, planes@, input, spans@.take(s as int), accelerated),
                decreases spans.len() - s,
            {
                let span = spans[s];
                proof {
                    lemma_covered(spans@, rows as int, s as int);
                    assert(spans@.take(s + 1).drop_last() =~= spans@.take(s as int));
                    assert(spans@.take(s + 1).last() == span);
                }
                self.project_span(
                    cmd,
                    planes,
                    input,
                    span.first,
                    span.count,
                    span.role == CHUNK,
                    accelerated,
                );
                s = s + 1;
            }
        } else {
            self.project_span(cmd, planes, input, 0, rows, false, accelerated);
        }
    }

    /// One span: fused leading ternary planes where that is qualified, then
    /// the remaining planes one by one.
    pub fn project_span(
        &self,
        cmd: &mut Program,
        planes: &Vec<Plane>,
        input: Buffer,
        first: usize,
        rows: usize,
        prefill: bool,
        accelerated: bool,
    )
        requires
            0 < planes.len(),
            1 <= rows,
            first + rows <= CHUNK,
            narrow(planes@),
        ensures
            final(cmd)@ == self.span_steps(
                old(cmd)@,
                planes@,
                input,
                first,
                rows,
                prefill,
                accelerated,
            ),
    {
        let mut packed: usize = 0;
        let ghost whole = planes@;
        assert(whole.skip(0) =~= whole);
        while packed < planes.len() && planes[packed].weight.ty == AFFINE2
            invariant
                packed <= planes.len(),
                whole == planes@,
                packed_prefix(whole) == packed + packed_prefix(whole.skip(packed as int)),
            decreases planes.len() - packed,
        {
            assert(whole.skip(packed as int).drop_first() =~= whole.skip(packed + 1));
            assert(whole.skip(packed as int)[0] == whole[packed as int]);
            packed = packed + 1;
        }
        assert(packed_prefix(whole) == packed) by {
            if packed < whole.len() {
                assert(whole.skip(packed as int)[0] == whole[packed as int]);
            }
        }
        let fused = !prefill && accelerated && rows <= 4 && 2 <= packed && packed <= 3;
        if fused {
            let a = planes[0];
            let b = planes[1];
            let c = if packed == 3 { planes[2] } else { planes[1] };
            let k: usize = a.weight.k;
            let mut grid: usize = div_ceil(a.weight.n, 16) + div_ceil(b.weight.n, 16);
            if packed == 3 {
                grid = grid + div_ceil(c.weight.n, 16);
            }
            cmd.dispatch_at(
                nth(rows, "bonsai_multi1", "bonsai_multi2", "bonsai_multi3", "bonsai_multi4"),
                list7(
                    a.weight.buffer,
                    b.weight.buffer,
                    c.weight.buffer,
                    self.rotated,
                    a.out,
                    b.out,
                    c.out,
                ),
                list7(
                    0,
                    0,
                    0,
                    row_offset(first, k),
                    row_offset(first, a.weight.n),
                    row_offset(first, b.weight.n),
                    row_offset(first, c.weight.n),
                ),
                list5(
                    k as u32,
                    a.weight.n as u32,
                    b.weight.n as u32,
                    if packed == 3 { c.weight.n as u32 } else { 0 },
                    rows as u32,
                ),
                (grid, 1, 1),
                128,
            );
        }
        let from: usize = if fused { packed } else { 0 };
        let ghost start = cmd@;
        let mut i: usize = from;
        while i < planes.len()
            invariant
                from <= i <= planes.len(),
                1 <= rows,
                first + rows <= CHUNK,
                narrow(planes@),
                cmd@ == self.plane_steps(
                    start,
                    planes@,
                    from as int,
                    i as int,
                    input,
                    first,
                    rows,
                    prefill,
                    accelerated,
                ),
            decreases planes.len() - i,
        {
            let plane = planes[i];
            let w = plane.weight;
            let ternary = w.ty == AFFINE2;
            let (name, columns, tile) = span_election(ternary, w.n, rows, prefill, accelerated);
            cmd.dispatch_at(
                name,
                list3(w.buffer, if ternary { self.rotated } else { input }, plane.out),
                list3(0, row_offset(first, w.k), row_offset(first, w.n)),
                list4(w.k as u32, w.n as u32, rows as u32, w.ty),
                (div_ceil(w.n, columns), div_ceil(rows, tile), 1),
                128,
            );
            i = i + 1;
        }
    }
}

/// Planes that share an input width and whose row offsets fit.
pub open spec fn narrow(planes: Seq<Plane>) -> bool {
    forall|i: int|
        0 <= i < planes.len() ==> {
            let w = (#[trigger] planes[i]).weight;
            w.k == planes[0].weight.k && w.k <= 0x1_0000 && w.n <= 0x10_0000
        }
}

fn row_offset(first: usize, width: usize) -> (r: usize)
    requires
        first <= CHUNK,
        width <= 0x10_0000,
    ensures
        r == first * width * 4,
{
    proof {
        crate::arith::lemma_product_bound(first as int, width as int, 512, 0x10_0000);
    }
    first * width * 4
}

/// Each span of a cover lies inside the rows.
pub proof fn lemma_covered(spans: Seq<RowSpan>, rows: int, i: int)
    requires
        covers(spans, rows),
        0 <= i < spans.len(),
    ensures
        spans[i].count > 0,
        spans[i].first + spans[i].count <= rows,
        spans[i].role == 1 || spans[i].role == CHUNK,
    decreases spans.len(),
{
    if i < spans.len() - 1 {
        lemma_covered(spans.drop_last(), spans.last().first as int, i);
    }
}

} // verus!
