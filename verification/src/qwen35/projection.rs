//! Decode projections that load shared inputs once.
use vstd::prelude::*;
use crate::arith::{ceil_div, div_ceil, ONE};
use crate::program::{
    kernel, linear, list3, list5, list7, list8, nth, nth_name, planes as planes_step, Buffer, Plane,
    Program, Route, Step,
};
use crate::qwen35::graph::MAX_PLANE;

verus! {

/// Formats that the shared-load kernels read.
pub open spec fn pair_type(ty: u32) -> bool {
    12 <= ty <= 14 || ty == 23
}

/// All planes are wide and in a shared-load format.
pub open spec fn eligible(planes: Seq<Plane>) -> bool {
    forall|i: int|
        0 <= i < planes.len() ==> pair_type((#[trigger] planes[i]).weight.ty) && planes[i].weight.n >= 1024
}

pub open spec fn any_iq4(planes: Seq<Plane>) -> bool {
    exists|i: int| 0 <= i < planes.len() && (#[trigger] planes[i]).weight.ty == 23
}

/// Row counts at which shared loads help.
pub open spec fn pays(planes: Seq<Plane>, m: int) -> bool {
    if m == 1 {
        planes.len() == 2 && any_iq4(planes)
    } else if m == 2 {
        !any_iq4(planes)
    } else {
        m == 3 || m == 4
    }
}

pub open spec fn pair_columns(m: int) -> int {
    if m == 1 { 8 } else { 32 }
}

pub open spec fn pair_step(planes: Seq<Plane>, input: Buffer, m: usize) -> Step {
    let k = planes[0].weight.k;
    let columns = pair_columns(m as int);
    let a = planes[0];
    if planes.len() == 1 {
        kernel(
            nth_name(m as int, ("qwen_pair1"@, "qwen_pair2"@, "qwen_pair3"@, "qwen_pair4"@)),
            seq![a.weight.buffer, input, a.out],
            seq![k as u32, a.weight.n as u32, m as u32, a.weight.ty, ONE],
            (ceil_div(a.weight.n as int, columns), 1, 1),
            128,
        )
    } else {
        let b = planes[1];
        let c = if planes.len() == 3 { planes[2] } else { planes[1] };
        kernel(
            nth_name(
                m as int,
                ("qwen_multi_pair1"@, "qwen_multi_pair2"@, "qwen_multi_pair3"@, "qwen_multi_pair4"@),
            ),
            seq![a.weight.buffer, b.weight.buffer, c.weight.buffer, input, a.out, b.out, c.out],
            seq![
                k as u32,
                a.weight.n as u32,
                b.weight.n as u32,
                if planes.len() == 3 { c.weight.n as u32 } else { 0u32 },
                m as u32,
                a.weight.ty,
                b.weight.ty,
                c.weight.ty,
            ],
            (
                ceil_div(a.weight.n as int, columns) + ceil_div(b.weight.n as int, columns)
                    + if planes.len() == 3 { ceil_div(c.weight.n as int, columns) } else { 0 },
                1,
                1,
            ),
            128,
        )
    }
}

/// Shared loads where they pay, else the device side's own election.
pub open spec fn dense_step(
    affine4: u32,
    planes: Seq<Plane>,
    input: Buffer,
    m: usize,
    workspace: Buffer,
) -> Step {
    if planes[0].weight.ty == affine4 {
        planes_step(Route::Affine, planes, input, m as int, workspace, seq![])
    } else if eligible(planes) && pays(planes, m as int) {
        pair_step(planes, input, m)
    } else if planes.len() == 1 {
        linear(planes[0].weight, input, planes[0].out, m as int, workspace)
    } else {
        planes_step(Route::Shared, planes, input, m as int, workspace, seq![])
    }
}

pub open spec fn bounded(planes: Seq<Plane>) -> bool {
    forall|i: int| 0 <= i < planes.len() ==> (#[trigger] planes[i]).weight.n <= MAX_PLANE
}

/// Column-coarsened decode of one to three planes over a common input.
pub fn pair(cmd: &mut Program, planes: &Vec<Plane>, input: Buffer, m: usize)
    requires
        1 <= m <= 4,
        1 <= planes.len() <= 3,
        bounded(planes@),
        forall|i: int| 0 <= i < planes.len() ==> {
            let w = (#[trigger] planes[i]).weight;
            w.k == planes[0].weight.k && pair_type(w.ty)
        },
    ensures
        final(cmd)@ == old(cmd)@.push(pair_step(planes@, input, m)),
{
    let columns: usize = if m == 1 { 8 } else { 32 };
    let a = planes[0];
    let k: usize = a.weight.k;
    if planes.len() == 1 {
        cmd.dispatch(
            nth(m, "qwen_pair1", "qwen_pair2", "qwen_pair3", "qwen_pair4"),
            list3(a.weight.buffer, input, a.out),
            list5(k as u32, a.weight.n as u32, m as u32, a.weight.ty, ONE),
            (div_ceil(a.weight.n, columns), 1, 1),
            128,
        );
    } else {
        let b = planes[1];
        let three = planes.len() == 3;
        let c = if three { planes[2] } else { planes[1] };
        let mut grid: usize = div_ceil(a.weight.n, columns) + div_ceil(b.weight.n, columns);
        if three {
            grid = grid + div_ceil(c.weight.n, columns);
        }
        cmd.dispatch(
            nth(m, "qwen_multi_pair1", "qwen_multi_pair2", "qwen_multi_pair3", "qwen_multi_pair4"),
            list7(
                a.weight.buffer,
                b.weight.buffer,
                c.weight.buffer,
                input,
                a.out,
                b.out,
                c.out,
            ),
            list8(
                k as u32,
                a.weight.n as u32,
                b.weight.n as u32,
                if three { c.weight.n as u32 } else { 0 },
                m as u32,
                a.weight.ty,
                b.weight.ty,
                c.weight.ty,
            ),
            (grid, 1, 1),
            128,
        );
    }
}

fn all_eligible(planes: &Vec<Plane>) -> (r: bool)
    ensures
        r == eligible(planes@),
{
    let mut i: usize = 0;
    while i < planes.len()
        invariant
            i <= planes.len(),
            forall|j: int| 0 <= j < i ==> pair_type((#[trigger] planes[j]).weight.ty)
                && planes[j].weight.n >= 1024,
        decreases planes.len() - i,
    {
        let w = planes[i].weight;
        if !((12 <= w.ty && w.ty <= 14) || w.ty == 23) || w.n < 1024 {
            return false;
        }
        i = i + 1;
    }
    true
}

fn has_iq4(planes: &Vec<Plane>) -> (r: bool)
    ensures
        r == any_iq4(planes@),
{
    let mut i: usize = 0;
    while i < planes.len()
        invariant
            i <= planes.len(),
            forall|j: int| 0 <= j < i ==> (#[trigger] planes[j]).weight.ty != 23,
        decreases planes.len() - i,
    {
        if planes[i].weight.ty == 23 {
            return true;
        }
        i = i + 1;
    }
    false
}

/// Model-local election: shared loads help a mixed pair at one row and most
/// formats from two to four; anything wider stays on the common route.
pub fn project(
    cmd: &mut Program,
    affine4: u32,
    planes: Vec<Plane>,
    input: Buffer,
    m: usize,
    workspace: Buffer,
)
    requires
        1 <= planes.len() <= 4,
        planes.len() == 4 ==> !eligible(planes@),
        bounded(planes@),
        forall|i: int| 0 <= i < planes.len() ==> (#[trigger] planes[i]).weight.k == planes[0].weight.k,
    ensures
        final(cmd)@ == old(cmd)@.push(dense_step(affine4, planes@, input, m, workspace)),
{
    if planes[0].weight.ty == affine4 {
        cmd.planes(Route::Affine, planes, input, m, workspace, Vec::new());
        return;
    }
    let iq4 = has_iq4(&planes);
    let pays = match m {
        1 => planes.len() == 2 && iq4,
        2 => !iq4,
        3 | 4 => true,
        _ => false,
    };
    if all_eligible(&planes) && pays {
        pair(cmd, &planes, input, m);
    } else if planes.len() == 1 {
        cmd.linear(planes[0].weight, input, planes[0].out, m, workspace);
    } else {
        cmd.planes(Route::Shared, planes, input, m, workspace, Vec::new());
    }
}

} // verus!
