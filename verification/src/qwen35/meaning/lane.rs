//! Every projection lane multiplies every plane by its input.
use vstd::prelude::*;
use crate::arith::lemma_ceil_div;
use crate::device::effects::{effect, group_planes, group_runs, products, put, run};
use crate::device::names::{lemma_planes_names, work, Work};
use crate::device::projecting::{lemma_products_keep, lemma_products_prefix};
use crate::device::values::{product, Cells, Value};
use crate::program::{Buffer, Plane, RowSpan, Step};
use crate::qwen35::graph::{projectable, Graph, MAX_PLANE};
use crate::qwen35::lane::{strict_kernel, strict_step, strict_steps};
use crate::qwen35::projection::{dense_step, eligible, pair_columns, pays};

verus! {

broadcast use {group_runs, group_planes};

/// Outputs that differ from each other, from the input and from the
/// workspace, which differs from the input too.
pub open spec fn separate(planes: Seq<Plane>, input: Buffer, workspace: Buffer) -> bool {
    &&& input.id != workspace.id
    &&& forall|i: int|
        0 <= i < planes.len() ==> (#[trigger] planes[i]).out.id != input.id && planes[i].out.id
            != workspace.id
    &&& forall|i: int, j: int|
        0 <= i < j < planes.len() ==> (#[trigger] planes[i]).out.id != (#[trigger] planes[j]).out.id
}

/// Memories that agree but for one buffer.
pub open spec fn agree(a: Cells, b: Cells, but: Buffer) -> bool {
    forall|id: u32| id != but.id ==> #[trigger] a[id] == b[id]
}

/// What a buffer that is not written holds does not matter to the others.
pub proof fn lemma_products_agree(a: Cells, b: Cells, but: Buffer, planes: Seq<Plane>, of: Value, rows: int, n: int)
    requires
        agree(a, b, but),
        n <= planes.len(),
    ensures
        agree(products(a, planes, of, rows, n), products(b, planes, of, rows, n), but),
    decreases n,
{
    if n > 0 {
        lemma_products_agree(a, b, but, planes, of, rows, n - 1);
    }
}

/// What dense planes need to be counted by a kernel.
pub open spec fn countable(planes: Seq<Plane>) -> bool {
    forall|i: int|
        0 <= i < planes.len() ==> (#[trigger] planes[i]).weight.n <= MAX_PLANE && planes[i].weight.k
            == planes[0].weight.k
}

proof fn lemma_dense(c: Cells, affine4: u32, planes: Seq<Plane>, input: Buffer, rows: usize, workspace: Buffer)
    requires
        1 <= planes.len() <= 4,
        planes.len() == 4 ==> !eligible(planes),
        countable(planes),
        separate(planes, input, workspace),
    ensures
        agree(
            effect(c, dense_step(affine4, planes, input, rows, workspace)),
            products(c, planes, c[input.id], rows as int, planes.len() as int),
            workspace,
        ),
{
    let of = c[input.id];
    let lost = put(c, workspace, Value::Lost);
    assert(agree(lost, c, workspace));
    lemma_products_agree(lost, c, workspace, planes, of, rows as int, planes.len() as int);
    lemma_planes_names();
    reveal_with_fuel(products, 5);
    if planes[0].weight.ty == affine4 {
    } else if eligible(planes) && pays(planes, rows as int) {
        let columns = pair_columns(rows as int);
        lemma_ceil_div(planes[0].weight.n as int, columns);
        lemma_ceil_div(rows as int, rows as int);
        if planes.len() == 3 {
            assert(planes[2].weight.n >= 1024);
        }
    } else if planes.len() == 1 {
        assert(planes =~= seq![planes[0]]);
    }
}

proof fn lemma_strict(c: Cells, affine4: u32, plane: Plane, input: Buffer, rows: usize, workspace: Buffer)
    requires
        plane.weight.n <= MAX_PLANE,
        1 <= rows <= 65536,
        separate(seq![plane], input, workspace),
    ensures
        agree(
            effect(c, strict_step(affine4, plane, input, rows, workspace)),
            put(c, plane.out, product(plane.weight, rows as int, c[input.id])),
            workspace,
        ),
{
    lemma_planes_names();
    let w = plane.weight;
    if w.ty == 8 && rows >= 2 {
        let (name, tile, columns) = strict_kernel(rows as int);
        assert(work(name) == (Work::Multiply { columns, rows: tile }));
        lemma_ceil_div(w.n as int, columns);
        lemma_ceil_div(rows as int, tile);
    } else {
        lemma_dense(c, affine4, seq![plane], input, rows, workspace);
        reveal_with_fuel(products, 2);
    }
}

proof fn lemma_strict_all(
    m: Cells,
    p: Seq<Step>,
    affine4: u32,
    planes: Seq<Plane>,
    input: Buffer,
    rows: usize,
    workspace: Buffer,
)
    requires
        countable(planes),
        1 <= rows <= 65536,
        separate(planes, input, workspace),
    ensures
        agree(
            run(m, strict_steps(p, affine4, planes, input, rows, workspace)),
            products(run(m, p), planes, run(m, p)[input.id], rows as int, planes.len() as int),
            workspace,
        ),
    decreases planes.len(),
{
    if planes.len() > 0 {
        let rest = planes.drop_last();
        let one = planes.last();
        assert(forall|i: int| 0 <= i < rest.len() ==> rest[i] == planes[i]);
        assert(one == planes[planes.len() - 1]);
        lemma_strict_all(m, p, affine4, rest, input, rows, workspace);
        let c = run(m, strict_steps(p, affine4, rest, input, rows, workspace));
        let of = run(m, p)[input.id];
        let n = rest.len() as int;
        lemma_products_prefix(run(m, p), rest, planes, of, rows as int, n);
        lemma_products_keep(run(m, p), rest, of, rows as int, n, input.id);
        assert(c[input.id] == of);
        assert(separate(seq![one], input, workspace));
        lemma_strict(c, affine4, one, input, rows, workspace);
    }
}

impl Graph {
    /// Whatever its lane, a projection multiplies every plane by the whole
    /// input, each product goes where its plane says, and nothing else changes
    /// but the workspace.
    pub proof fn lanes_multiply_every_plane(
        &self,
        m: Cells,
        p: Seq<Step>,
        planes: Seq<Plane>,
        input: Buffer,
        rows: usize,
        workspace: Buffer,
        spans: Seq<RowSpan>,
    )
        requires
            self.bonsai is None,
            projectable(self, planes, rows as int, spans),
            separate(planes, input, workspace),
        ensures
            agree(
                run(m, self.project_steps(p, planes, input, rows, workspace, spans)),
                products(run(m, p), planes, run(m, p)[input.id], rows as int, planes.len() as int),
                workspace,
            ),
    {
        let c = run(m, p);
        let lost = put(c, workspace, Value::Lost);
        assert(agree(lost, c, workspace));
        lemma_products_agree(lost, c, workspace, planes, c[input.id], rows as int, planes.len() as int);
        assert(countable(planes));
        lemma_dense(c, self.lanes.affine4, planes, input, rows, workspace);
        lemma_strict_all(m, p, self.lanes.affine4, planes, input, rows, workspace);
    }
}

} // verus!
