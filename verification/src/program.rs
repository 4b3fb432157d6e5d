//! Device work as data. A planner appends steps to a [`Program`]; a device
//! lane runs them in order.
use vstd::prelude::*;
use crate::tables::copied_tokens;

verus! {

/// A device allocation: which one, and how many bytes it holds.
#[derive(Clone, Copy, Debug, PartialEq, Eq, Structural)]
pub struct Buffer {
    pub id: u32,
    pub len: u64,
}

/// One weight plane: `n` outputs over `k` inputs in storage format `ty`.
#[derive(Clone, Copy, Debug, PartialEq, Eq, Structural)]
pub struct Weight {
    pub buffer: Buffer,
    pub ty: u32,
    pub k: usize,
    pub n: usize,
}

/// A weight plane and where its products go.
#[derive(Clone, Copy, Debug, PartialEq, Eq, Structural)]
pub struct Plane {
    pub weight: Weight,
    pub out: Buffer,
}

/// `count` rows from `first` that share one role.
#[derive(Clone, Copy, Debug, PartialEq, Eq, Structural)]
pub struct RowSpan {
    pub first: usize,
    pub count: usize,
    pub role: usize,
}

/// Projection lanes whose kernels are elected by the device side.
#[derive(Clone, Copy, Debug, PartialEq, Eq, Structural)]
pub enum Route {
    /// One plane at unit scale.
    Linear,
    /// Planes that share an input.
    Shared,
    /// Four-bit affine planes.
    Affine,
    /// Affine planes with reductions pinned per row role.
    AffineStable,
    /// Affine planes of a verification pass.
    AffineVerify { alone: bool },
    /// Packed planes.
    Packed,
    /// The packed gate/up pair, activation included.
    PackedGateUp,
    /// The compact prompt feed-forward: gate, up and down.
    CompactFfn,
    /// Rotated ternary planes.
    Ternary { head: bool },
    /// Rotated ternary embedding rows.
    TernaryEmbed,
}

/// One step, as the contracts see it.
pub enum Step {
    Kernel {
        kernel: Seq<char>,
        buffers: Seq<Buffer>,
        offsets: Seq<usize>,
        params: Seq<u32>,
        grid: (int, int, int),
        threads: int,
    },
    Planes {
        route: Route,
        planes: Seq<Plane>,
        input: Buffer,
        rows: int,
        workspace: Buffer,
        spans: Seq<RowSpan>,
    },
}

/// One step.
#[derive(Debug, PartialEq, Eq)]
pub enum Op {
    Kernel {
        kernel: &'static str,
        buffers: Vec<Buffer>,
        offsets: Vec<usize>,
        params: Vec<u32>,
        grid: (usize, usize, usize),
        threads: usize,
    },
    Planes {
        route: Route,
        planes: Vec<Plane>,
        input: Buffer,
        rows: usize,
        workspace: Buffer,
        spans: Vec<RowSpan>,
    },
}

impl View for Op {
    type V = Step;

    open spec fn view(&self) -> Step {
        match *self {
            Op::Kernel { kernel, buffers, offsets, params, grid, threads } => Step::Kernel {
                kernel: kernel@,
                buffers: buffers@,
                offsets: offsets@,
                params: params@,
                grid: (grid.0 as int, grid.1 as int, grid.2 as int),
                threads: threads as int,
            },
            Op::Planes { route, planes, input, rows, workspace, spans } => Step::Planes {
                route,
                planes: planes@,
                input,
                rows: rows as int,
                workspace,
                spans: spans@,
            },
        }
    }
}

/// A launch of `kernel` on whole buffers.
pub open spec fn kernel(
    name: Seq<char>,
    buffers: Seq<Buffer>,
    params: Seq<u32>,
    grid: (int, int, int),
    threads: int,
) -> Step {
    Step::Kernel { kernel: name, buffers, offsets: seq![], params, grid, threads }
}

/// A launch of `kernel` with a byte offset into each buffer.
pub open spec fn kernel_at(
    name: Seq<char>,
    buffers: Seq<Buffer>,
    offsets: Seq<usize>,
    params: Seq<u32>,
    grid: (int, int, int),
    threads: int,
) -> Step {
    Step::Kernel { kernel: name, buffers, offsets, params, grid, threads }
}

pub open spec fn planes(
    route: Route,
    planes: Seq<Plane>,
    input: Buffer,
    rows: int,
    workspace: Buffer,
    spans: Seq<RowSpan>,
) -> Step {
    Step::Planes { route, planes, input, rows, workspace, spans }
}

/// Steps in the order in which they run.
#[derive(Debug, PartialEq, Eq)]
pub struct Program {
    pub ops: Vec<Op>,
}

impl View for Program {
    type V = Seq<Step>;

    open spec fn view(&self) -> Seq<Step> {
        self.ops@.map_values(|op: Op| op@)
    }
}

impl Program {
    pub fn new() -> (r: Self)
        ensures
            r@ == Seq::<Step>::empty(),
    {
        let r = Program { ops: Vec::new() };
        assert(r@ =~= Seq::<Step>::empty());
        r
    }

    fn append(&mut self, op: Op)
        ensures
            final(self)@ == old(self)@.push(op@),
    {
        self.ops.push(op);
        assert(self@ =~= old(self)@.push(op@));
    }

    pub fn dispatch(
        &mut self,
        name: &'static str,
        buffers: Vec<Buffer>,
        params: Vec<u32>,
        grid: (usize, usize, usize),
        threads: usize,
    )
        ensures
            final(self)@ == old(self)@.push(
                kernel(
                    name@,
                    buffers@,
                    params@,
                    (grid.0 as int, grid.1 as int, grid.2 as int),
                    threads as int,
                ),
            ),
    {
        let offsets: Vec<usize> = Vec::new();
        self.append(Op::Kernel { kernel: name, buffers, offsets, params, grid, threads });
    }

    pub fn dispatch_at(
        &mut self,
        name: &'static str,
        buffers: Vec<Buffer>,
        offsets: Vec<usize>,
        params: Vec<u32>,
        grid: (usize, usize, usize),
        threads: usize,
    )
        ensures
            final(self)@ == old(self)@.push(
                kernel_at(
                    name@,
                    buffers@,
                    offsets@,
                    params@,
                    (grid.0 as int, grid.1 as int, grid.2 as int),
                    threads as int,
                ),
            ),
    {
        self.append(Op::Kernel { kernel: name, buffers, offsets, params, grid, threads });
    }

    pub fn planes(
        &mut self,
        route: Route,
        list: Vec<Plane>,
        input: Buffer,
        rows: usize,
        workspace: Buffer,
        spans: Vec<RowSpan>,
    )
        ensures
            final(self)@ == old(self)@.push(
                planes(route, list@, input, rows as int, workspace, spans@),
            ),
    {
        self.append(Op::Planes { route, planes: list, input, rows, workspace, spans });
    }

    /// One plane at unit scale.
    pub fn linear(
        &mut self,
        weight: Weight,
        input: Buffer,
        out: Buffer,
        rows: usize,
        workspace: Buffer,
    )
        ensures
            final(self)@ == old(self)@.push(linear(weight, input, out, rows as int, workspace)),
    {
        self.planes(
            Route::Linear,
            list1(Plane { weight, out }),
            input,
            rows,
            workspace,
            Vec::new(),
        );
    }
}

pub open spec fn linear(weight: Weight, input: Buffer, out: Buffer, rows: int, workspace: Buffer) -> Step {
    planes(Route::Linear, seq![Plane { weight, out }], input, rows, workspace, seq![])
}

/// The `n`-th of four names, counted from one; the last from four on.
pub open spec fn nth_name(n: int, names: (Seq<char>, Seq<char>, Seq<char>, Seq<char>)) -> Seq<char> {
    if n <= 1 {
        names.0
    } else if n == 2 {
        names.1
    } else if n == 3 {
        names.2
    } else {
        names.3
    }
}

pub fn nth(
    n: usize,
    first: &'static str,
    second: &'static str,
    third: &'static str,
    fourth: &'static str,
) -> (r: &'static str)
    ensures
        r@ == nth_name(n as int, (first@, second@, third@, fourth@)),
{
    if n <= 1 {
        first
    } else if n == 2 {
        second
    } else if n == 3 {
        third
    } else {
        fourth
    }
}

pub fn list0<T>() -> (r: Vec<T>)
    ensures
        r@ == Seq::<T>::empty(),
{
    Vec::new()
}

pub fn list1<T>(a: T) -> (r: Vec<T>)
    ensures
        r@ == seq![a],
{
    let r: Vec<T> = vec![a];
    assert(r@ =~= seq![a]);
    r
}

/// Words that the host writes to the start of a buffer before a program runs.
#[derive(Debug, PartialEq, Eq)]
pub struct Write {
    pub buffer: Buffer,
    pub words: Vec<u32>,
}

/// Writes, as the contracts see them.
pub open spec fn written(list: Seq<Write>) -> Seq<(Buffer, Seq<u32>)> {
    list.map_values(|w: Write| (w.buffer, w.words@))
}

pub fn push_write(list: &mut Vec<Write>, buffer: Buffer, words: &Vec<u32>)
    ensures
        written(final(list)@) == written(old(list)@).push((buffer, words@)),
{
    let ghost before = written(list@);
    list.push(Write { buffer, words: copied_tokens(words) });
    assert(written(list@) =~= before.push((buffer, words@)));
}

pub fn list2<T>(a: T, b: T) -> (r: Vec<T>)
    ensures
        r@ == seq![a, b],
{
    let r: Vec<T> = vec![a, b];
    assert(r@ =~= seq![a, b]);
    r
}

pub fn list3<T>(a: T, b: T, c: T) -> (r: Vec<T>)
    ensures
        r@ == seq![a, b, c],
{
    let r: Vec<T> = vec![a, b, c];
    assert(r@ =~= seq![a, b, c]);
    r
}

pub fn list4<T>(a: T, b: T, c: T, d: T) -> (r: Vec<T>)
    ensures
        r@ == seq![a, b, c, d],
{
    let r: Vec<T> = vec![a, b, c, d];
    assert(r@ =~= seq![a, b, c, d]);
    r
}

pub fn list5<T>(a: T, b: T, c: T, d: T, e: T) -> (r: Vec<T>)
    ensures
        r@ == seq![a, b, c, d, e],
{
    let r: Vec<T> = vec![a, b, c, d, e];
    assert(r@ =~= seq![a, b, c, d, e]);
    r
}

pub fn list6<T>(a: T, b: T, c: T, d: T, e: T, f: T) -> (r: Vec<T>)
    ensures
        r@ == seq![a, b, c, d, e, f],
{
    let r: Vec<T> = vec![a, b, c, d, e, f];
    assert(r@ =~= seq![a, b, c, d, e, f]);
    r
}

pub fn list7<T>(a: T, b: T, c: T, d: T, e: T, f: T, g: T) -> (r: Vec<T>)
    ensures
        r@ == seq![a, b, c, d, e, f, g],
{
    let r: Vec<T> = vec![a, b, c, d, e, f, g];
    assert(r@ =~= seq![a, b, c, d, e, f, g]);
    r
}

pub fn list8<T>(a: T, b: T, c: T, d: T, e: T, f: T, g: T, h: T) -> (r: Vec<T>)
    ensures
        r@ == seq![a, b, c, d, e, f, g, h],
{
    let r: Vec<T> = vec![a, b, c, d, e, f, g, h];
    assert(r@ =~= seq![a, b, c, d, e, f, g, h]);
    r
}

pub fn list9<T>(a: T, b: T, c: T, d: T, e: T, f: T, g: T, h: T, i: T) -> (r: Vec<T>)
    ensures
        r@ == seq![a, b, c, d, e, f, g, h, i],
{
    let r: Vec<T> = vec![a, b, c, d, e, f, g, h, i];
    assert(r@ =~= seq![a, b, c, d, e, f, g, h, i]);
    r
}

} // verus!
