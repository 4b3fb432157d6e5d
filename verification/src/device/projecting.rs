//! What projections compute.
use vstd::prelude::*;
use crate::arith::lemma_ceil_div;
use crate::device::effects::{effect, group_planes, group_runs, products, put, run};
use crate::device::names::{lemma_planes_names, work, Work};
use crate::device::values::{product, Cells, Value};
use crate::program::{Buffer, Plane, Step};
use crate::projection::{elected, precise_type, project_steps, projected};

verus! {

broadcast use {group_runs, group_planes};

/// Planes whose sides are counted, and which leave the input alone.
pub open spec fn sound(planes: Seq<Plane>, input: Buffer) -> bool {
    forall|i: int|
        0 <= i < planes.len() ==> (#[trigger] planes[i]).weight.n <= u32::MAX && planes[i].out.id != input.id
}

/// Products of the first planes do not depend on the rest of the list.
pub proof fn lemma_products_prefix(m: Cells, a: Seq<Plane>, b: Seq<Plane>, of: Value, rows: int, n: int)
    requires
        n <= a.len(),
        n <= b.len(),
        forall|i: int| 0 <= i < n ==> a[i] == b[i],
    ensures
        products(m, a, of, rows, n) == products(m, b, of, rows, n),
    decreases n,
{
    if n > 0 {
        lemma_products_prefix(m, a, b, of, rows, n - 1);
    }
}

/// What no plane writes to stays.
pub proof fn lemma_products_keep(m: Cells, planes: Seq<Plane>, of: Value, rows: int, n: int, id: u32)
    requires
        n <= planes.len(),
        forall|i: int| 0 <= i < n ==> (#[trigger] planes[i]).out.id != id,
    ensures
        products(m, planes, of, rows, n)[id] == m[id],
    decreases n,
{
    if n > 0 {
        lemma_products_keep(m, planes, of, rows, n - 1, id);
    }
}

/// One launch multiplies all rows by the whole plane.
proof fn lemma_projected(m: Cells, plane: Plane, input: Buffer, rows: usize)
    requires
        precise_type(plane.weight.ty),
        plane.weight.n <= u32::MAX,
        1 <= rows <= u32::MAX,
    ensures
        effect(m, projected(plane, input, rows)) == put(
            m,
            plane.out,
            product(plane.weight, rows as int, m[input.id]),
        ),
{
    lemma_planes_names();
    let w = plane.weight;
    let (name, columns, tile) = elected(w.ty, rows as int);
    assert(work(name) == (Work::Multiply { columns, rows: tile }));
    lemma_ceil_div(w.n as int, columns);
    lemma_ceil_div(rows as int, tile);
}

/// Precise projections multiply the input by every plane of the list.
pub proof fn projections_multiply_every_plane(
    m: Cells,
    p: Seq<Step>,
    planes: Seq<Plane>,
    input: Buffer,
    rows: usize,
)
    requires
        sound(planes, input),
        forall|i: int| 0 <= i < planes.len() ==> precise_type((#[trigger] planes[i]).weight.ty),
        1 <= rows <= u32::MAX,
    ensures
        run(m, project_steps(p, planes, input, rows)) == products(
            run(m, p),
            planes,
            run(m, p)[input.id],
            rows as int,
            planes.len() as int,
        ),
    decreases planes.len(),
{
    if planes.len() > 0 {
        let rest = planes.drop_last();
        assert(forall|i: int| 0 <= i < rest.len() ==> rest[i] == planes[i]);
        projections_multiply_every_plane(m, p, rest, input, rows);
        let c = run(m, project_steps(p, rest, input, rows));
        let of = run(m, p)[input.id];
        lemma_products_prefix(run(m, p), rest, planes, of, rows as int, rest.len() as int);
        lemma_products_keep(run(m, p), rest, of, rows as int, rest.len() as int, input.id);
        lemma_projected(c, planes.last(), input, rows);
    }
}

} // verus!
