//! Image admission, prefix identity and the encoder's share of a tick.
use vstd::prelude::*;
use crate::arith::{area, groups, groups256, max, min, MAX_ROWS};
use crate::rows::Row;
use crate::program::{kernel, list2, list3, list5, Buffer, Program, Step};

verus! {

/// Nanoseconds of prompt work per tick.
pub const PREFILL_QUANTUM: u128 = 128_000_000;

/// What is left of the soft tick after sampling and prediction error.
pub const TICK_ALLOWANCE: u128 = 176_000_000;

/// The encoder's wall allowance, in nanoseconds, after a backbone pass of
/// `previous_forward` nanoseconds. A cheap pass leaves the full grant; an
/// expensive or stale observation only shrinks it.
pub fn encoder_quantum(previous_forward: u128) -> (r: u128)
    ensures
        r == min(
            PREFILL_QUANTUM as int,
            max(TICK_ALLOWANCE - previous_forward, 0),
        ),
{
    let left: u128 = if previous_forward >= TICK_ALLOWANCE {
        0
    } else {
        TICK_ALLOWANCE - previous_forward
    };
    if left < PREFILL_QUANTUM {
        left
    } else {
        PREFILL_QUANTUM
    }
}

/// Whether another block, predicted to cost what the last one did, still ends
/// inside the allowance.
pub fn encoder_budget_allows(elapsed: u128, last_block: u128, quantum: u128) -> (r: bool)
    ensures
        r == (elapsed + last_block < quantum),
{
    last_block < quantum && elapsed < quantum - last_block
}

/// Two or more prompts of comparable size: none short, none more than twice
/// another.
pub open spec fn comparable(sizes: Seq<usize>) -> bool {
    &&& sizes.len() >= 2
    &&& forall|i: int| 0 <= i < sizes.len() ==> 256 <= #[trigger] sizes[i]
    &&& forall|i: int, j: int|
        0 <= i < sizes.len() && 0 <= j < sizes.len() ==> #[trigger] sizes[i] <= 2 * #[trigger] sizes[j]
}

pub fn comparable_images(sizes: &[usize]) -> (r: bool)
    ensures
        r == comparable(sizes@),
{
    if sizes.len() < 2 {
        return false;
    }
    let mut low: usize = sizes[0];
    let mut high: usize = sizes[0];
    let ghost mut at_low: int = 0;
    let ghost mut at_high: int = 0;
    let mut i: usize = 1;
    while i < sizes.len()
        invariant
            1 <= i <= sizes.len(),
            forall|k: int| 0 <= k < i ==> low <= #[trigger] sizes[k] <= high,
            0 <= at_low < i,
            0 <= at_high < i,
            sizes[at_low] == low,
            sizes[at_high] == high,
        decreases sizes.len() - i,
    {
        if sizes[i] < low {
            low = sizes[i];
            proof {
                at_low = i as int;
            }
        }
        if sizes[i] > high {
            high = sizes[i];
            proof {
                at_high = i as int;
            }
        }
        i = i + 1;
    }
    let r = low >= 256 && high as u128 <= 2 * low as u128;
    proof {
        if comparable(sizes@) {
            assert(sizes[at_high] <= 2 * sizes[at_low]);
        }
    }
    r
}

/// The encoded rows of an image that a live slot holds at `offset`.
#[derive(Clone, Copy, Debug, PartialEq, Eq, Structural)]
pub struct SlotImage {
    pub slot: usize,
    pub offset: usize,
    pub rows: usize,
    pub embd: Buffer,
}

/// One launch per image: the kernel matches rows against the image's range.
pub open spec fn mtp_image_steps(
    p: Seq<Step>,
    images: Seq<SlotImage>,
    meta: Buffer,
    x: Buffer,
    width: usize,
    rows: usize,
) -> Seq<Step>
    decreases images.len(),
{
    if images.len() == 0 {
        p
    } else {
        let i = images.last();
        mtp_image_steps(p, images.drop_last(), meta, x, width, rows).push(
            kernel(
                "vis_inject"@,
                seq![i.embd, meta, x],
                seq![width as u32, rows as u32, i.slot as u32, i.offset as u32, i.rows as u32],
                (groups(rows as int, width as int), 1, 1),
                256,
            ),
        )
    }
}

pub fn inject_mtp_images(
    cmd: &mut Program,
    images: &Vec<SlotImage>,
    meta: Buffer,
    x: Buffer,
    width: usize,
    rows: usize,
)
    requires
        rows <= MAX_ROWS,
        width <= 0x8000,
    ensures
        final(cmd)@ == mtp_image_steps(old(cmd)@, images@, meta, x, width, rows),
{
    let mut n: usize = 0;
    assert(images@.take(0) =~= Seq::<SlotImage>::empty());
    while n < images.len()
        invariant
            n <= images.len(),
            rows <= MAX_ROWS,
            width <= 0x8000,
            cmd@ == mtp_image_steps(old(cmd)@, images@.take(n as int), meta, x, width, rows),
        decreases images.len() - n,
    {
        let i = images[n];
        cmd.dispatch(
            "vis_inject",
            list3(i.embd, meta, x),
            list5(width as u32, rows as u32, i.slot as u32, i.offset as u32, i.rows as u32),
            (groups256(rows, width), 1, 1),
            256,
        );
        proof {
            let next = images@.take(n + 1);
            assert(next.drop_last() =~= images@.take(n as int));
            assert(next.last() == i);
        }
        n = n + 1;
    }
    assert(images@.take(images.len() as int) =~= images@);
}

/// Row `r` shows part of image `i`.
pub open spec fn shows(r: Row, i: SlotImage) -> bool {
    r.slot == i.slot && i.offset <= r.position < i.offset + i.rows
}

/// The first row from `from` that shows part of `i`, or the row count.
pub open spec fn first_shown(rows: Seq<Row>, i: SlotImage, from: int) -> int
    decreases rows.len() - from,
{
    if from >= rows.len() {
        rows.len() as int
    } else if shows(rows[from], i) {
        from
    } else {
        first_shown(rows, i, from + 1)
    }
}

/// Where the run of rows of the same slot before the image's end stops.
pub open spec fn run_end(rows: Seq<Row>, i: SlotImage, from: int) -> int
    decreases rows.len() - from,
{
    if from >= rows.len() {
        rows.len() as int
    } else if rows[from].slot == i.slot && rows[from].position < i.offset + i.rows {
        run_end(rows, i, from + 1)
    } else {
        from
    }
}

/// The copy of the shown part of one image over the rows' embeddings.
pub open spec fn image_steps(
    p: Seq<Step>,
    i: SlotImage,
    rows: Seq<Row>,
    x: Buffer,
    width: usize,
    splash: bool,
) -> Seq<Step> {
    let first = first_shown(rows, i, 0);
    if first >= rows.len() {
        p
    } else {
        let count = run_end(rows, i, first) - first;
        p.push(
            kernel(
                if splash { "splash_image_copy"@ } else { "spec_copy"@ },
                seq![i.embd, x],
                seq![
                    ((rows[first].position - i.offset) * width) as u32,
                    (first * width) as u32,
                    (count * width) as u32,
                ],
                (groups(count, width as int), 1, 1),
                256,
            ),
        )
    }
}

pub open spec fn images_steps(
    p: Seq<Step>,
    images: Seq<SlotImage>,
    rows: Seq<Row>,
    x: Buffer,
    width: usize,
    splash: bool,
) -> Seq<Step>
    decreases images.len(),
{
    if images.len() == 0 {
        p
    } else {
        image_steps(
            images_steps(p, images.drop_last(), rows, x, width, splash),
            images.last(),
            rows,
            x,
            width,
            splash,
        )
    }
}

fn inject_image(
    cmd: &mut Program,
    i: SlotImage,
    rows: &Vec<Row>,
    x: Buffer,
    width: usize,
    splash: bool,
)
    requires
        rows.len() <= MAX_ROWS,
        width <= 0x8000,
        i.offset + i.rows <= 0x1_0000_0000,
    ensures
        final(cmd)@ == image_steps(old(cmd)@, i, rows@, x, width, splash),
{
    let mut first: usize = 0;
    while first < rows.len() && !(rows[first].slot == i.slot && rows[first].position as u64
        >= i.offset as u64 && (rows[first].position as u64) < i.offset as u64 + i.rows as u64)
        invariant
            first <= rows.len(),
            i.offset + i.rows <= 0x1_0000_0000,
            first_shown(rows@, i, 0) == first_shown(rows@, i, first as int),
        decreases rows.len() - first,
    {
        first = first + 1;
    }
    if first >= rows.len() {
        return;
    }
    let mut end: usize = first;
    while end < rows.len() && rows[end].slot == i.slot && (rows[end].position as u64)
        < i.offset as u64 + i.rows as u64
        invariant
            first <= end <= rows.len(),
            i.offset + i.rows <= 0x1_0000_0000,
            run_end(rows@, i, first as int) == run_end(rows@, i, end as int),
        decreases rows.len() - end,
    {
        end = end + 1;
    }
    let count: usize = end - first;
    let shift: u64 = rows[first].position as u64 - i.offset as u64;
    proof {
        crate::arith::lemma_product_bound(shift as int, width as int, 0x1_0000_0000, 0x8000);
    }
    let skipped: u64 = shift * width as u64;
    cmd.dispatch(
        if splash { "splash_image_copy" } else { "spec_copy" },
        list2(i.embd, x),
        list3(skipped as u32, area(first, width) as u32, area(count, width) as u32),
        (groups256(count, width), 1, 1),
        256,
    );
}

/// Overwrite the embeddings of rows that show an image with its encoding.
pub fn inject_images(
    cmd: &mut Program,
    images: &Vec<SlotImage>,
    rows: &Vec<Row>,
    x: Buffer,
    width: usize,
    splash: bool,
)
    requires
        rows.len() <= MAX_ROWS,
        width <= 0x8000,
        forall|n: int| 0 <= n < images.len() ==> (#[trigger] images[n]).offset + images[n].rows
            <= 0x1_0000_0000,
    ensures
        final(cmd)@ == images_steps(old(cmd)@, images@, rows@, x, width, splash),
{
    let mut n: usize = 0;
    assert(images@.take(0) =~= Seq::<SlotImage>::empty());
    while n < images.len()
        invariant
            n <= images.len(),
            rows.len() <= MAX_ROWS,
            width <= 0x8000,
            forall|n: int| 0 <= n < images.len() ==> (#[trigger] images[n]).offset + images[n].rows
                <= 0x1_0000_0000,
            cmd@ == images_steps(old(cmd)@, images@.take(n as int), rows@, x, width, splash),
        decreases images.len() - n,
    {
        let i = images[n];
        inject_image(cmd, i, rows, x, width, splash);
        proof {
            let next = images@.take(n + 1);
            assert(next.drop_last() =~= images@.take(n as int));
            assert(next.last() == i);
        }
        n = n + 1;
    }
    assert(images@.take(images.len() as int) =~= images@);
}

} // verus!
