//! Backbone projections that keep single-precision operands: register-reusing
//! vector kernels for narrow rows, bounded tiles for prompt rows.
use vstd::prelude::*;
use crate::arith::{ceil_div, div_ceil, ONE};
use crate::program::{kernel, list3, list5, Buffer, Plane, Program, Step};

verus! {

/// The kernel elected for a storage format and a row count, with the columns
/// and rows of its tile.
pub open spec fn elected(ty: u32, rows: int) -> (Seq<char>, int, int) {
    if 12 <= ty <= 14 {
        if rows == 1 {
            ("linear_kquant1"@, 4, 1)
        } else if rows == 2 {
            ("linear_kquant2"@, 16, 2)
        } else if rows == 3 {
            ("linear_kquant3"@, 16, 3)
        } else if rows == 4 {
            ("linear_kquant4"@, 16, 4)
        } else if rows == 5 {
            ("gemma_full5"@, 16, 5)
        } else if rows == 6 {
            ("gemma_full6"@, 16, 6)
        } else if rows == 7 {
            ("gemma_full7"@, 16, 7)
        } else if rows == 8 {
            ("gemma_full8"@, 16, 8)
        } else {
            ("laguna_dense_f32"@, 16, 32)
        }
    } else {
        if rows == 1 {
            ("linear_q8_r1"@, 4, 1)
        } else if 2 <= rows <= 4 {
            ("linear_q8_r4"@, 4, 4)
        } else if 5 <= rows <= 8 {
            ("linear_q8_r8"@, 4, 8)
        } else if 9 <= rows <= 15 {
            ("linear_q8_r16"@, 4, 16)
        } else {
            ("laguna_dense_f32"@, 16, 32)
        }
    }
}

/// The storage formats that have a precise kernel.
pub open spec fn precise_type(ty: u32) -> bool {
    12 <= ty <= 14 || ty == 8
}

pub open spec fn projected(plane: Plane, input: Buffer, rows: usize) -> Step {
    let w = plane.weight;
    let (name, columns, tile) = elected(w.ty, rows as int);
    kernel(
        name,
        seq![w.buffer, input, plane.out],
        seq![w.k as u32, w.n as u32, rows as u32, w.ty, ONE],
        (ceil_div(w.n as int, columns), ceil_div(rows as int, tile), 1),
        128,
    )
}

/// One launch per plane, in order.
pub open spec fn project_steps(p: Seq<Step>, planes: Seq<Plane>, input: Buffer, rows: usize) -> Seq<Step>
    decreases planes.len(),
{
    if planes.len() == 0 {
        p
    } else {
        project_steps(p, planes.drop_last(), input, rows).push(projected(planes.last(), input, rows))
    }
}

fn elect(ty: u32, rows: usize) -> (r: (&'static str, usize, usize))
    requires
        precise_type(ty),
    ensures
        (r.0@, r.1 as int, r.2 as int) == elected(ty, rows as int),
        0 < r.1,
        0 < r.2,
{
    if ty >= 12 {
        match rows {
            1 => ("linear_kquant1", 4, 1),
            2 => ("linear_kquant2", 16, 2),
            3 => ("linear_kquant3", 16, 3),
            4 => ("linear_kquant4", 16, 4),
            5 => ("gemma_full5", 16, 5),
            6 => ("gemma_full6", 16, 6),
            7 => ("gemma_full7", 16, 7),
            8 => ("gemma_full8", 16, 8),
            _ => ("laguna_dense_f32", 16, 32),
        }
    } else {
        match rows {
            1 => ("linear_q8_r1", 4, 1),
            2..=4 => ("linear_q8_r4", 4, 4),
            5..=8 => ("linear_q8_r8", 4, 8),
            9..=15 => ("linear_q8_r16", 4, 16),
            _ => ("laguna_dense_f32", 16, 32),
        }
    }
}

pub fn project(cmd: &mut Program, planes: &Vec<Plane>, input: Buffer, rows: usize)
    requires
        forall|i: int| 0 <= i < planes.len() ==> precise_type((#[trigger] planes[i]).weight.ty),
    ensures
        final(cmd)@ == project_steps(old(cmd)@, planes@, input, rows),
{
    let mut i: usize = 0;
    assert(planes@.take(0) =~= Seq::<Plane>::empty());
    while i < planes.len()
        invariant
            i <= planes.len(),
            forall|i: int| 0 <= i < planes.len() ==> precise_type((#[trigger] planes[i]).weight.ty),
            cmd@ == project_steps(old(cmd)@, planes@.take(i as int), input, rows),
        decreases planes.len() - i,
    {
        let plane = planes[i];
        let w = plane.weight;
        let (name, columns, tile) = elect(w.ty, rows);
        cmd.dispatch(
            name,
            list3(w.buffer, input, plane.out),
            list5(w.k as u32, w.n as u32, rows as u32, w.ty, ONE),
            (div_ceil(w.n, columns), div_ceil(rows, tile), 1),
            128,
        );
        proof {
            let next = planes@.take(i + 1);
            assert(next.drop_last() =~= planes@.take(i as int));
            assert(next.last() == plane);
        }
        i = i + 1;
    }
    assert(planes@.take(planes.len() as int) =~= planes@);
}

} // verus!
