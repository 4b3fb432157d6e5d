//! Which projection lane a graph takes.
use vstd::prelude::*;
use crate::arith::{ceil_div, div_ceil, ONE};
use crate::program::{
    kernel, list1, list3, list5, planes as planes_step, Buffer, Plane, Program, Route, RowSpan, Step,
};
use crate::qwen35::graph::{projectable, Graph, MAX_PLANE};
use crate::qwen35::projection::{dense_step, project as dense};

verus! {

/// Full-precision tile of an eight-bit plane: name, rows and columns.
pub open spec fn strict_kernel(rows: int) -> (Seq<char>, int, int) {
    if rows >= 16 {
        if rows <= 16 {
            ("muse_q8_f32_16"@, 16, 16)
        } else if rows <= 32 {
            ("muse_q8_f32_32"@, 32, 16)
        } else {
            ("muse_q8_f32_64"@, 64, 16)
        }
    } else if rows <= 4 {
        ("linear_q8_r4"@, 4, 4)
    } else if rows <= 8 {
        ("linear_q8_r8"@, 8, 4)
    } else {
        ("linear_q8_r16"@, 16, 4)
    }
}

fn strict_election(rows: usize) -> (r: (&'static str, usize, usize))
    ensures
        (r.0@, r.1 as int, r.2 as int) == strict_kernel(rows as int),
        0 < r.1,
        0 < r.2,
{
    if rows >= 16 {
        if rows <= 16 {
            ("muse_q8_f32_16", 16, 16)
        } else if rows <= 32 {
            ("muse_q8_f32_32", 32, 16)
        } else {
            ("muse_q8_f32_64", 64, 16)
        }
    } else if rows <= 4 {
        ("linear_q8_r4", 4, 4)
    } else if rows <= 8 {
        ("linear_q8_r8", 8, 4)
    } else {
        ("linear_q8_r16", 16, 4)
    }
}

/// One plane of the routed shape. Routing amplifies rounding that depends on
/// the row count, so eight-bit planes keep full-precision tiles.
pub open spec fn strict_step(
    affine4: u32,
    plane: Plane,
    input: Buffer,
    rows: usize,
    workspace: Buffer,
) -> Step {
    let w = plane.weight;
    if w.ty == 8 && rows >= 2 {
        let (name, tile, columns) = strict_kernel(rows as int);
        kernel(
            name,
            seq![w.buffer, input, plane.out],
            seq![w.k as u32, w.n as u32, rows as u32, w.ty, ONE],
            (ceil_div(w.n as int, columns), ceil_div(rows as int, tile), 1),
            128,
        )
    } else {
        dense_step(affine4, seq![plane], input, rows, workspace)
    }
}

pub open spec fn strict_steps(
    p: Seq<Step>,
    affine4: u32,
    planes: Seq<Plane>,
    input: Buffer,
    rows: usize,
    workspace: Buffer,
) -> Seq<Step>
    decreases planes.len(),
{
    if planes.len() == 0 {
        p
    } else {
        strict_steps(p, affine4, planes.drop_last(), input, rows, workspace).push(
            strict_step(affine4, planes.last(), input, rows, workspace),
        )
    }
}

impl Graph {
    /// The output head alone.
    pub open spec fn is_head(&self, planes: Seq<Plane>) -> bool {
        planes.len() == 1 && planes[0].weight == self.head
    }

    /// The steps of one projection. The head consumes selected rows, not the
    /// row map of the tick, so it never takes the tick's spans.
    pub open spec fn project_steps(
        &self,
        p: Seq<Step>,
        planes: Seq<Plane>,
        input: Buffer,
        rows: usize,
        workspace: Buffer,
        spans: Seq<RowSpan>,
    ) -> Seq<Step> {
        let head = self.is_head(planes);
        if self.ternary {
            p.push(planes_step(Route::Ternary { head }, planes, input, rows as int, workspace, spans))
        } else if self.bonsai is Some {
            self.bonsai->0.project_steps(
                p,
                planes,
                input,
                rows,
                if head { Seq::empty() } else { spans },
                self.accelerated,
            )
        } else if self.splash {
            p.push(planes_step(Route::Packed, planes, input, rows as int, workspace, spans))
        } else if self.mlx && spans.len() > 0 {
            p.push(
                planes_step(
                    Route::AffineStable,
                    planes,
                    input,
                    rows as int,
                    workspace,
                    if head { seq![RowSpan { first: 0, count: rows, role: 1 }] } else { spans },
                ),
            )
        } else if self.mlx && self.verifying {
            p.push(
                planes_step(
                    Route::AffineVerify { alone: (self.spec->0).live == 1 },
                    planes,
                    input,
                    rows as int,
                    workspace,
                    seq![],
                ),
            )
        } else if !self.geometry.is_moe() {
            p.push(dense_step(self.lanes.affine4, planes, input, rows, workspace))
        } else {
            strict_steps(p, self.lanes.affine4, planes, input, rows, workspace)
        }
    }

    pub fn project(
        &self,
        cmd: &mut Program,
        planes: Vec<Plane>,
        input: Buffer,
        rows: usize,
        workspace: Buffer,
        spans: &Vec<RowSpan>,
    )
        requires
            self.wf(),
            projectable(self, planes@, rows as int, spans@),
        ensures
            final(cmd)@ == self.project_steps(old(cmd)@, planes@, input, rows, workspace, spans@),
    {
        let head = planes.len() == 1 && planes[0].weight == self.head;
        if self.ternary {
            cmd.planes(Route::Ternary { head }, planes, input, rows, workspace, copied(spans));
            return;
        }
        if let Some(bonsai) = &self.bonsai {
            if head {
                let none: Vec<RowSpan> = Vec::new();
                bonsai.project(cmd, &planes, input, rows, &none, self.accelerated);
            } else {
                bonsai.project(cmd, &planes, input, rows, spans, self.accelerated);
            }
            return;
        }
        if self.splash {
            cmd.planes(Route::Packed, planes, input, rows, workspace, copied(spans));
            return;
        }
        if self.mlx && spans.len() > 0 {
            let roles = if head {
                list1(RowSpan { first: 0, count: rows, role: 1 })
            } else {
                copied(spans)
            };
            cmd.planes(Route::AffineStable, planes, input, rows, workspace, roles);
            return;
        }
        if self.mlx && self.verifying {
            let alone = self.spec.unwrap().live == 1;
            cmd.planes(Route::AffineVerify { alone }, planes, input, rows, workspace, Vec::new());
            return;
        }
        if !self.geometry.moe() {
            dense(cmd, self.lanes.affine4, planes, input, rows, workspace);
            return;
        }
        self.strict(cmd, &planes, input, rows, workspace);
    }

    fn strict(
        &self,
        cmd: &mut Program,
        planes: &Vec<Plane>,
        input: Buffer,
        rows: usize,
        workspace: Buffer,
    )
        requires
            rows <= crate::arith::MAX_ROWS,
            forall|i: int| 0 <= i < planes.len() ==> {
                let w = (#[trigger] planes[i]).weight;
                w.k % 128 == 0 && w.n <= MAX_PLANE
            },
        ensures
            final(cmd)@ == strict_steps(
                old(cmd)@,
                self.lanes.affine4,
                planes@,
                input,
                rows,
                workspace,
            ),
    {
        let mut i: usize = 0;
        assert(planes@.take(0) =~= Seq::<Plane>::empty());
        while i < planes.len()
            invariant
                i <= planes.len(),
                rows <= crate::arith::MAX_ROWS,
                forall|i: int| 0 <= i < planes.len() ==> {
                    let w = (#[trigger] planes[i]).weight;
                    w.k % 128 == 0 && w.n <= MAX_PLANE
                },
                cmd@ == strict_steps(
                    old(cmd)@,
                    self.lanes.affine4,
                    planes@.take(i as int),
                    input,
                    rows,
                    workspace,
                ),
            decreases planes.len() - i,
        {
            let plane = planes[i];
            let w = plane.weight;
            if w.ty == 8 && rows >= 2 {
                let (name, tile, columns) = strict_election(rows);
                cmd.dispatch(
                    name,
                    list3(w.buffer, input, plane.out),
                    list5(w.k as u32, w.n as u32, rows as u32, w.ty, ONE),
                    (div_ceil(w.n, columns), div_ceil(rows, tile), 1),
                    128,
                );
            } else {
                dense(cmd, self.lanes.affine4, list1(plane), input, rows, workspace);
            }
            proof {
                let next = planes@.take(i + 1);
                assert(next.drop_last() =~= planes@.take(i as int));
                assert(next.last() == plane);
            }
            i = i + 1;
        }
        assert(planes@.take(planes.len() as int) =~= planes@);
    }
}

pub fn copied(spans: &Vec<RowSpan>) -> (r: Vec<RowSpan>)
    ensures
        r@ == spans@,
{
    let mut r: Vec<RowSpan> = Vec::new();
    let mut i: usize = 0;
    while i < spans.len()
        invariant
            i <= spans.len(),
            r@ == spans@.take(i as int),
        decreases spans.len() - i,
    {
        r.push(spans[i]);
        assert(spans@.take(i + 1) =~= spans@.take(i as int).push(spans[i as int]));
        i = i + 1;
    }
    assert(spans@.take(spans.len() as int) =~= spans@);
    r
}

} // verus!
