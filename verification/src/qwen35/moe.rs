//! Routed experts. Expert planes stay compressed; prompt rows are gathered
//! into bounded tiles, decode rows read their experts directly.
use vstd::prelude::*;
use crate::arith::{ceil_div, div_ceil, groups, groups256, MAX_ROWS, ONE};
use crate::error::{Fault, MetalError};
use crate::program::{
    kernel, list0, list1, list2, list3, list4, list5, list7, Buffer, Program, Step, Weight,
};

verus! {

pub const EXPERTS: usize = 256;
pub const ACTIVE: usize = 8;
pub const WIDTH: usize = 2048;
pub const FF: usize = 512;

#[derive(Clone, Copy, Debug, PartialEq, Eq, Structural)]
pub struct Experts {
    pub router: Weight,
    pub shared_gate: Weight,
    pub gate: Weight,
    pub up: Weight,
    pub down: Weight,
}

impl Experts {
    /// Expert planes are eight-bit, routers full or half precision.
    pub open spec fn stored(self) -> bool {
        &&& self.gate.ty == 8 && self.up.ty == 8 && self.down.ty == 8
        &&& self.router.ty == 0 || self.router.ty == 30
        &&& self.shared_gate.ty == 0 || self.shared_gate.ty == 30
    }

    /// Accept the five planes of one block.
    pub fn load_with(
        router: Weight,
        shared_gate: Weight,
        gate: Weight,
        up: Weight,
        down: Weight,
    ) -> (r: Result<Self, MetalError>)
        ensures
            ({
                let e = Experts { router, shared_gate, gate, up, down };
                r == if e.stored() {
                    Ok::<Self, MetalError>(e)
                } else {
                    Err::<Self, MetalError>(MetalError::Model(Fault::ExpertFormat))
                }
            }),
    {
        if gate.ty != 8 || up.ty != 8 || down.ty != 8 || (router.ty != 0 && router.ty != 30) || (
        shared_gate.ty != 0 && shared_gate.ty != 30) {
            return Err(MetalError::Model(Fault::ExpertFormat));
        }
        Ok(Experts { router, shared_gate, gate, up, down })
    }
}

#[derive(Clone, Copy, Debug, PartialEq, Eq, Structural)]
pub struct Workspace {
    pub rows: usize,
    pub logits: Buffer,
    pub shared_gate: Buffer,
    pub ids: Buffer,
    pub weights: Buffer,
    pub lists: Buffer,
    pub counts: Buffer,
    pub tiles: Buffer,
    pub gu: Buffer,
    pub out: Buffer,
}

/// Elements of the nine planes.
pub open spec fn plane_sizes(rows: int) -> Seq<int> {
    seq![
        rows * 256,
        rows,
        rows * 8,
        rows * 8,
        256 * rows * 8,
        256,
        1 + 2 * (ceil_div(rows * 8, 16) + 256),
        rows * 8 * 512 * 2,
        rows * 8 * 2048,
    ]
}

pub open spec fn sum(s: Seq<int>) -> int
    decreases s.len(),
{
    if s.len() == 0 {
        0
    } else {
        sum(s.drop_last()) + s.last()
    }
}

impl Workspace {
    /// The planes in the order of their allocation.
    pub open spec fn planes(self) -> Seq<Buffer> {
        seq![
            self.logits,
            self.shared_gate,
            self.ids,
            self.weights,
            self.lists,
            self.counts,
            self.tiles,
            self.gu,
            self.out,
        ]
    }

    pub fn sizes(rows: usize) -> (r: [usize; 9])
        requires
            rows <= MAX_ROWS,
        ensures
            forall|i: int| 0 <= i < 9 ==> #[trigger] r[i] == plane_sizes(rows as int)[i],
    {
        let tiles: usize = div_ceil(rows * ACTIVE, 16);
        [
            rows * EXPERTS,
            rows,
            rows * ACTIVE,
            rows * ACTIVE,
            EXPERTS * rows * ACTIVE,
            EXPERTS,
            1 + 2 * (tiles + EXPERTS),
            rows * ACTIVE * FF * 2,
            rows * ACTIVE * WIDTH,
        ]
    }

    pub fn bytes(rows: usize) -> (r: u64)
        requires
            rows <= MAX_ROWS,
        ensures
            r == 4 * sum(plane_sizes(rows as int)),
    {
        let sizes = Self::sizes(rows);
        let ghost want = plane_sizes(rows as int);
        let mut total: u64 = 0;
        let mut i: usize = 0;
        assert(want.take(0) =~= Seq::<int>::empty());
        while i < 9
            invariant
                i <= 9,
                rows <= MAX_ROWS,
                want == plane_sizes(rows as int),
                forall|i: int| 0 <= i < 9 ==> #[trigger] sizes[i] == want[i],
                total == 4 * sum(want.take(i as int)),
                total <= i * 0x2_0000_0000,
            decreases 9 - i,
        {
            assert(want.take(i + 1).drop_last() =~= want.take(i as int));
            assert(want.take(i + 1).last() == want[i as int]);
            assert(sizes[i as int] <= 0x4000_0000);
            total = total + sizes[i] as u64 * 4;
            i = i + 1;
        }
        assert(want.take(9) =~= want);
        total
    }

    /// The nine planes as consecutive allocations from `first`.
    pub fn new(first: u32, rows: usize) -> (r: Self)
        requires
            rows <= MAX_ROWS,
            first <= u32::MAX - 9,
        ensures
            r.rows == rows,
            r.planes() == Seq::new(
                9,
                |i: int| Buffer {
                    id: (first + i) as u32,
                    len: (plane_sizes(rows as int)[i] * 4) as u64,
                },
            ),
    {
        let s = Self::sizes(rows);
        let r = Workspace {
            rows,
            logits: Buffer { id: first, len: s[0] as u64 * 4 },
            shared_gate: Buffer { id: first + 1, len: s[1] as u64 * 4 },
            ids: Buffer { id: first + 2, len: s[2] as u64 * 4 },
            weights: Buffer { id: first + 3, len: s[3] as u64 * 4 },
            lists: Buffer { id: first + 4, len: s[4] as u64 * 4 },
            counts: Buffer { id: first + 5, len: s[5] as u64 * 4 },
            tiles: Buffer { id: first + 6, len: s[6] as u64 * 4 },
            gu: Buffer { id: first + 7, len: s[7] as u64 * 4 },
            out: Buffer { id: first + 8, len: s[8] as u64 * 4 },
        };
        assert(r.planes() =~= Seq::new(
            9,
            |i: int| Buffer {
                id: (first + i) as u32,
                len: (plane_sizes(rows as int)[i] * 4) as u64,
            },
        ));
        r
    }

    /// Rows per gathered tile.
    pub open spec fn tile(rows: int) -> int {
        if rows * ACTIVE >= EXPERTS * 32 { 32 } else { 16 }
    }

    pub open spec fn half_step(self, w: Experts, input: Buffer, rows: usize, grouped: bool, down: bool) -> Step {
        let tile = Self::tile(rows as int);
        let k = if down { FF } else { WIDTH };
        let n = if down { WIDTH } else { FF };
        let source = if down { w.down.buffer } else { w.gate.buffer };
        let from = if down { self.gu } else { input };
        let out = if down { self.out } else { self.gu };
        let p = seq![k as u32, n as u32, rows as u32];
        if grouped {
            kernel(
                if down {
                    if tile == 16 { "qmoe_down_strict16"@ } else { "qmoe_down_strict32"@ }
                } else {
                    if tile == 16 { "qmoe_gu_strict16"@ } else { "qmoe_gu_strict32"@ }
                },
                seq![source, w.up.buffer, from, self.lists, self.counts, self.tiles, out],
                p,
                (
                    ceil_div(n as int, 32) * if down { 1int } else { 2 },
                    ceil_div(rows * ACTIVE, tile) + EXPERTS,
                    1,
                ),
                128,
            )
        } else if down {
            kernel(
                "qmoe_down_decode"@,
                seq![source, from, self.ids, out],
                p,
                (ceil_div(n as int, 4), rows * ACTIVE, 1),
                128,
            )
        } else {
            kernel(
                "qmoe_gu_decode"@,
                seq![source, w.up.buffer, from, self.ids, out],
                p,
                (ceil_div(n as int, 4), rows * ACTIVE, 1),
                128,
            )
        }
    }

    pub open spec fn project_steps(
        self,
        p: Seq<Step>,
        w: Experts,
        input: Buffer,
        rows: usize,
        grouped: bool,
    ) -> Seq<Step> {
        let p = if grouped {
            p.push(
                kernel(
                    "moe_align"@,
                    seq![self.ids, self.lists, self.counts],
                    seq![(rows * ACTIVE) as u32],
                    (EXPERTS as int, 1, 1),
                    256,
                ),
            ).push(
                kernel(
                    "moe_tiles"@,
                    seq![self.counts, self.tiles],
                    seq![EXPERTS as u32, Self::tile(rows as int) as u32],
                    (1, 1, 1),
                    256,
                ),
            )
        } else {
            p
        };
        p.push(self.half_step(w, input, rows, grouped, false)).push(
            kernel(
                "qmoe_swiglu"@,
                seq![self.gu],
                seq![FF as u32, (rows * ACTIVE) as u32],
                (groups(rows * ACTIVE, FF as int), 1, 1),
                256,
            ),
        ).push(self.half_step(w, input, rows, grouped, true))
    }

    fn half(
        &self,
        cmd: &mut Program,
        w: Experts,
        input: Buffer,
        rows: usize,
        grouped: bool,
        down: bool,
    )
        requires
            rows <= 8192,
        ensures
            final(cmd)@ == old(cmd)@.push(self.half_step(w, input, rows, grouped, down)),
    {
        let tile: usize = if rows * ACTIVE >= EXPERTS * 32 { 32 } else { 16 };
        let k: usize = if down { FF } else { WIDTH };
        let n: usize = if down { WIDTH } else { FF };
        let source = if down { w.down.buffer } else { w.gate.buffer };
        let from = if down { self.gu } else { input };
        let out = if down { self.out } else { self.gu };
        let p = list3(k as u32, n as u32, rows as u32);
        if grouped {
            cmd.dispatch(
                if down {
                    if tile == 16 { "qmoe_down_strict16" } else { "qmoe_down_strict32" }
                } else {
                    if tile == 16 { "qmoe_gu_strict16" } else { "qmoe_gu_strict32" }
                },
                list7(source, w.up.buffer, from, self.lists, self.counts, self.tiles, out),
                p,
                (
                    div_ceil(n, 32) * if down { 1 } else { 2 },
                    div_ceil(rows * ACTIVE, tile) + EXPERTS,
                    1,
                ),
                128,
            );
        } else if down {
            cmd.dispatch(
                "qmoe_down_decode",
                list4(source, from, self.ids, out),
                p,
                (div_ceil(n, 4), rows * ACTIVE, 1),
                128,
            );
        } else {
            cmd.dispatch(
                "qmoe_gu_decode",
                list5(source, w.up.buffer, from, self.ids, out),
                p,
                (div_ceil(n, 4), rows * ACTIVE, 1),
                128,
            );
        }
    }

    /// Both expert halves around the activation, gathered by expert when
    /// `grouped`.
    pub fn project(&self, cmd: &mut Program, w: Experts, input: Buffer, rows: usize, grouped: bool)
        requires
            rows <= self.rows,
            rows <= 8192,
        ensures
            final(cmd)@ == self.project_steps(old(cmd)@, w, input, rows, grouped),
    {
        let tile: usize = if rows * ACTIVE >= EXPERTS * 32 { 32 } else { 16 };
        if grouped {
            cmd.dispatch(
                "moe_align",
                list3(self.ids, self.lists, self.counts),
                list1((rows * ACTIVE) as u32),
                (EXPERTS, 1, 1),
                256,
            );
            cmd.dispatch(
                "moe_tiles",
                list2(self.counts, self.tiles),
                list2(EXPERTS as u32, tile as u32),
                (1, 1, 1),
                256,
            );
        }
        self.half(cmd, w, input, rows, grouped, false);
        cmd.dispatch(
            "qmoe_swiglu",
            list1(self.gu),
            list2(FF as u32, (rows * ACTIVE) as u32),
            (groups256(rows * ACTIVE, FF), 1, 1),
            256,
        );
        self.half(cmd, w, input, rows, grouped, true);
    }

    pub open spec fn route_step(weight: Weight, norm: Buffer, out: Buffer, rows: usize) -> Step {
        kernel(
            "linear"@,
            seq![weight.buffer, norm, out],
            seq![weight.k as u32, weight.n as u32, rows as u32, weight.ty, ONE],
            (ceil_div(weight.n as int, 4), rows as int, 1),
            128,
        )
    }

    pub open spec fn ffn_steps(
        self,
        p: Seq<Step>,
        w: Experts,
        norm: Buffer,
        delta: Buffer,
        rows: usize,
    ) -> Seq<Step> {
        let p = p.push(Self::route_step(w.router, norm, self.logits, rows)).push(
            Self::route_step(w.shared_gate, norm, self.shared_gate, rows),
        ).push(
            kernel(
                "qmoe_route"@,
                seq![self.logits, self.ids, self.weights],
                seq![],
                (rows as int, 1, 1),
                32,
            ),
        );
        self.project_steps(p, w, norm, rows, rows >= 16).push(
            kernel(
                "qmoe_fold"@,
                seq![self.out, self.weights, self.shared_gate, delta],
                seq![WIDTH as u32, rows as u32],
                (groups(rows as int, WIDTH as int), 1, 1),
                256,
            ),
        )
    }

    /// Route every row, run its experts and fold them into `delta`, which
    /// already holds the shared feed-forward. Routing keeps full-precision
    /// input and accumulation, since it is sensitive to near-ties.
    pub fn moe_ffn(&self, cmd: &mut Program, w: Experts, norm: Buffer, delta: Buffer, rows: usize)
        requires
            rows <= self.rows,
            rows <= 8192,
        ensures
            final(cmd)@ == self.ffn_steps(old(cmd)@, w, norm, delta, rows),
    {
        cmd.dispatch(
            "linear",
            list3(w.router.buffer, norm, self.logits),
            list5(w.router.k as u32, w.router.n as u32, rows as u32, w.router.ty, ONE),
            (div_ceil(w.router.n, 4), rows, 1),
            128,
        );
        cmd.dispatch(
            "linear",
            list3(w.shared_gate.buffer, norm, self.shared_gate),
            list5(
                w.shared_gate.k as u32,
                w.shared_gate.n as u32,
                rows as u32,
                w.shared_gate.ty,
                ONE,
            ),
            (div_ceil(w.shared_gate.n, 4), rows, 1),
            128,
        );
        cmd.dispatch(
            "qmoe_route",
            list3(self.logits, self.ids, self.weights),
            list0(),
            (rows, 1, 1),
            32,
        );
        self.project(cmd, w, norm, rows, rows >= 16);
        cmd.dispatch(
            "qmoe_fold",
            list4(self.out, self.weights, self.shared_gate, delta),
            list2(WIDTH as u32, rows as u32),
            (groups256(rows, WIDTH), 1, 1),
            256,
        );
    }
}

} // verus!
