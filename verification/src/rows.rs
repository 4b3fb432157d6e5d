//! Rows of a tick and how they group into sequences and tiles.
use vstd::prelude::*;
use crate::arith::{ceil_div, lemma_ceil_div, max, min, MAX_ROWS};

verus! {

/// Rows of one attention tile or recurrent chunk.
pub const TILE: usize = 32;

/// One row of a tick: `token` of the sequence in `slot`, at `position`.
#[derive(Clone, Copy, Debug, PartialEq, Eq, Structural)]
pub struct Row {
    pub slot: usize,
    pub token: u32,
    pub position: u32,
}

/// How many of `rows` belong to `slot`.
pub open spec fn count_slot(rows: Seq<Row>, slot: usize) -> int
    decreases rows.len(),
{
    if rows.len() == 0 {
        0
    } else {
        count_slot(rows.drop_last(), slot) + if rows.last().slot == slot { 1int } else { 0 }
    }
}

pub open spec fn visits(rows: Seq<Row>, slot: usize) -> bool {
    exists|j: int| 0 <= j < rows.len() && (#[trigger] rows[j]).slot == slot
}

/// The first row of the sequence that row `r` belongs to.
pub open spec fn seg_start(rows: Seq<Row>, r: int) -> int
    decreases r,
{
    if r <= 0 || rows[r - 1].slot != rows[r].slot {
        r
    } else {
        seg_start(rows, r - 1)
    }
}

/// One past the last row of the sequence that row `r` belongs to.
pub open spec fn seg_end(rows: Seq<Row>, r: int) -> int
    decreases rows.len() - r,
{
    if r + 1 >= rows.len() || rows[r + 1].slot != rows[r].slot {
        r + 1
    } else {
        seg_end(rows, r + 1)
    }
}

pub proof fn lemma_seg_end(rows: Seq<Row>, r: int)
    requires
        0 <= r < rows.len(),
    ensures
        r < seg_end(rows, r) <= rows.len(),
        forall|i: int| r <= i < seg_end(rows, r) ==> (#[trigger] rows[i]).slot == rows[r].slot,
        seg_end(rows, r) < rows.len() ==> rows[seg_end(rows, r)].slot != rows[r].slot,
        forall|i: int| r <= i < seg_end(rows, r) ==> #[trigger] seg_end(rows, i) == seg_end(rows, r),
    decreases rows.len() - r,
{
    if r + 1 < rows.len() && rows[r + 1].slot == rows[r].slot {
        lemma_seg_end(rows, r + 1);
    }
}

pub proof fn lemma_seg_start(rows: Seq<Row>, first: int, r: int)
    requires
        0 <= first <= r < rows.len(),
        first == 0 || rows[first - 1].slot != rows[first].slot,
        forall|i: int| first <= i <= r ==> (#[trigger] rows[i]).slot == rows[first].slot,
    ensures
        seg_start(rows, r) == first,
    decreases r - first,
{
    if r > first {
        assert(rows[r - 1].slot == rows[first].slot);
        lemma_seg_start(rows, first, r - 1);
    }
}

pub open spec fn tokens(rows: Seq<Row>) -> Seq<u32> {
    rows.map_values(|r: Row| r.token)
}

pub proof fn lemma_count_slot(rows: Seq<Row>, slot: usize, a: int, b: int)
    requires
        0 <= a <= b <= rows.len(),
    ensures
        count_slot(rows.take(a), slot) <= count_slot(rows.take(b), slot),
        a < b && rows[a].slot == slot ==> count_slot(rows.take(a), slot) < count_slot(rows.take(b), slot),
    decreases b - a,
{
    if a < b {
        lemma_count_slot(rows, slot, a, b - 1);
        assert(rows.take(b).drop_last() =~= rows.take(b - 1));
        assert(rows.take(b).last() == rows[b - 1]);
    }
}

/// Consecutive pairs of first row and row count, `size` rows each but the
/// last, over `r..end`.
pub open spec fn tile_pairs(r: int, end: int, size: int) -> Seq<u32>
    decreases max(end - r, 0),
{
    if r >= end || size <= 0 {
        Seq::empty()
    } else {
        seq![r as u32, min(end - r, size) as u32] + tile_pairs(r + size, end, size)
    }
}

pub fn push_tiles(out: &mut Vec<u32>, first: usize, end: usize, size: usize)
    requires
        first <= end <= MAX_ROWS,
        0 < size <= TILE,
    ensures
        final(out)@ == old(out)@ + tile_pairs(first as int, end as int, size as int),
{
    let mut r: usize = first;
    let ghost total = old(out)@ + tile_pairs(first as int, end as int, size as int);
    while r < end
        invariant
            end <= MAX_ROWS,
            0 < size <= TILE,
            out@ + tile_pairs(r as int, end as int, size as int) == total,
        decreases end - r,
    {
        let n: usize = if end - r > size { size } else { end - r };
        let ghost before = out@;
        out.push(r as u32);
        out.push(n as u32);
        proof {
            assert(out@ =~= before + seq![r as u32, n as u32]);
            assert(out@ + tile_pairs(r + size, end as int, size as int) =~= before + (seq![
                r as u32,
                n as u32,
            ] + tile_pairs(r + size, end as int, size as int)));
        }
        if end - r <= size {
            r = end;
            assert(tile_pairs(r as int, end as int, size as int) =~= Seq::<u32>::empty());
        } else {
            r = r + size;
        }
    }
    assert(out@ =~= total);
}

/// Tiles are consecutive, full but for the last, and together cover exactly
/// the rows `first..end`.
pub proof fn tiles_partition_their_rows(first: int, end: int, size: int)
    requires
        0 <= first <= end <= u32::MAX,
        0 < size,
    ensures
        ({
            let t = tile_pairs(first, end, size);
            let n = ceil_div(end - first, size);
            &&& t.len() == 2 * n
            &&& forall|k: int|
                0 <= k < n ==> {
                    &&& #[trigger] t[2 * k] == first + k * size
                    &&& t[2 * k + 1] == min(size, end - (first + k * size))
                    &&& 0 < t[2 * k + 1]
                }
        }),
    decreases end - first,
{
    let t = tile_pairs(first, end, size);
    let n = ceil_div(end - first, size);
    if first < end {
        lemma_ceil_div(end - first, size);
        if end - first <= size {
            assert(n == 1) by (nonlinear_arith)
                requires
                    end - first <= n * size < end - first + size,
                    0 < end - first <= size,
                    0 < size,
            ;
            assert(tile_pairs(first + size, end, size) =~= Seq::<u32>::empty());
        } else {
            let rest = tile_pairs(first + size, end, size);
            tiles_partition_their_rows(first + size, end, size);
            let m = ceil_div(end - first - size, size);
            lemma_ceil_div(end - first - size, size);
            assert(n == m + 1) by (nonlinear_arith)
                requires
                    end - first <= n * size < end - first + size,
                    end - first - size <= m * size < end - first,
                    0 < size,
            ;
            assert forall|k: int| 0 <= k < n implies {
                &&& #[trigger] t[2 * k] == first + k * size
                &&& t[2 * k + 1] == min(size, end - (first + k * size))
                &&& 0 < t[2 * k + 1]
            } by {
                if k > 0 {
                    assert(t[2 * k] == rest[2 * (k - 1)]);
                    assert(t[2 * k + 1] == rest[2 * (k - 1) + 1]);
                    assert((k - 1) * size + size == k * size) by (nonlinear_arith);
                }
            }
        }
    } else {
        assert(n == 0) by {
            assert(0int / size == 0 && 0int % size == 0) by (nonlinear_arith)
                requires
                    0 < size,
            ;
        }
    }
}

/// Pairs of first row and row count that stay inside `first..m`.
pub open spec fn tiles_inside(t: Seq<u32>, first: int, m: int) -> bool {
    &&& t.len() % 2 == 0
    &&& forall|k: int|
        0 <= k < t.len() as int / 2 ==> {
            &&& first <= #[trigger] t[2 * k]
            &&& 0 < t[2 * k + 1] <= TILE
            &&& t[2 * k] + t[2 * k + 1] <= m
        }
}

pub proof fn lemma_tiles_inside(first: int, end: int, size: int)
    requires
        0 <= first <= end <= u32::MAX,
        0 < size <= TILE,
    ensures
        tiles_inside(tile_pairs(first, end, size), first, end),
        tile_pairs(first, end, size).len() as int / 2 <= end - first,
{
    tiles_partition_their_rows(first, end, size);
    lemma_ceil_div(end - first, size);
    let t = tile_pairs(first, end, size);
    assert forall|k: int| 0 <= k < t.len() as int / 2 implies {
        &&& first <= #[trigger] t[2 * k]
        &&& 0 < t[2 * k + 1] <= TILE
        &&& t[2 * k] + t[2 * k + 1] <= end
    } by {
        assert(t[2 * k] == first + k * size);
        assert(0 <= k * size) by (nonlinear_arith)
            requires
                0 <= k,
                0 < size,
        ;
    }
}

pub proof fn lemma_tiles_join(a: Seq<u32>, b: Seq<u32>, first: int, mid: int, m: int)
    requires
        first <= mid <= m,
        tiles_inside(a, first, mid),
        tiles_inside(b, mid, m),
    ensures
        tiles_inside(a + b, first, m),
{
    let t = a + b;
    assert forall|k: int| 0 <= k < t.len() as int / 2 implies {
        &&& first <= #[trigger] t[2 * k]
        &&& 0 < t[2 * k + 1] <= TILE
        &&& t[2 * k] + t[2 * k + 1] <= m
    } by {
        if k < a.len() as int / 2 {
            assert(t[2 * k] == a[2 * k]);
            assert(t[2 * k + 1] == a[2 * k + 1]);
        } else {
            let j = k - a.len() as int / 2;
            assert(t[2 * k] == b[2 * j]);
            assert(t[2 * k + 1] == b[2 * j + 1]);
        }
    }
}

/// Rows that tile pairs cover.
pub open spec fn tile_rows(t: Seq<u32>) -> int
    decreases t.len(),
{
    if t.len() < 2 {
        0
    } else {
        t[1] + tile_rows(t.skip(2))
    }
}

pub proof fn lemma_tile_rows_join(a: Seq<u32>, b: Seq<u32>)
    requires
        a.len() % 2 == 0,
    ensures
        tile_rows(a + b) == tile_rows(a) + tile_rows(b),
    decreases a.len(),
{
    if a.len() < 2 {
        assert(a + b =~= b);
    } else {
        assert((a + b).skip(2) =~= a.skip(2) + b);
        lemma_tile_rows_join(a.skip(2), b);
    }
}

pub proof fn lemma_tile_rows_bound(t: Seq<u32>)
    ensures
        0 <= tile_rows(t),
    decreases t.len(),
{
    if t.len() >= 2 {
        lemma_tile_rows_bound(t.skip(2));
    }
}

pub proof fn lemma_tile_rows(first: int, end: int, size: int)
    requires
        0 <= first <= end <= u32::MAX,
        0 < size <= TILE,
    ensures
        tile_rows(tile_pairs(first, end, size)) == end - first,
    decreases end - first,
{
    if first < end {
        let t = tile_pairs(first, end, size);
        let rest = tile_pairs(first + size, end, size);
        assert(t.skip(2) =~= rest);
        if end - first <= size {
            assert(rest =~= Seq::<u32>::empty());
            assert(tile_rows(rest) == 0);
        } else {
            lemma_tile_rows(first + size, end, size);
        }
    }
}

/// In how many tile pairs a row lies.
pub open spec fn holding(t: Seq<u32>, r: int) -> int
    decreases t.len(),
{
    if t.len() < 2 {
        0
    } else {
        (if t[0] <= r < t[0] + t[1] { 1int } else { 0 }) + holding(t.skip(2), r)
    }
}

/// How often a list names a row.
pub open spec fn listed(rows: Seq<u32>, r: int) -> int
    decreases rows.len(),
{
    if rows.len() == 0 {
        0
    } else {
        (if rows.last() == r { 1int } else { 0 }) + listed(rows.drop_last(), r)
    }
}

pub proof fn lemma_holding_join(a: Seq<u32>, b: Seq<u32>, r: int)
    requires
        a.len() % 2 == 0,
    ensures
        holding(a + b, r) == holding(a, r) + holding(b, r),
    decreases a.len(),
{
    if a.len() < 2 {
        assert(a + b =~= b);
    } else {
        assert((a + b).skip(2) =~= a.skip(2) + b);
        lemma_holding_join(a.skip(2), b, r);
    }
}

pub proof fn lemma_listed_join(a: Seq<u32>, b: Seq<u32>, r: int)
    ensures
        listed(a + b, r) == listed(a, r) + listed(b, r),
    decreases b.len(),
{
    if b.len() == 0 {
        assert(a + b =~= a);
    } else {
        assert((a + b).drop_last() =~= a + b.drop_last());
        lemma_listed_join(a, b.drop_last(), r);
    }
}

/// The tiles of a range hold each of its rows once, and no other row.
pub proof fn lemma_holding(first: int, end: int, size: int, r: int)
    requires
        0 <= first <= end <= u32::MAX,
        0 < size <= TILE,
    ensures
        holding(tile_pairs(first, end, size), r) == if first <= r < end { 1int } else { 0 },
    decreases end - first,
{
    if first < end {
        let t = tile_pairs(first, end, size);
        let rest = tile_pairs(first + size, end, size);
        assert(t.skip(2) =~= rest);
        if end - first <= size {
            assert(rest =~= Seq::<u32>::empty());
            assert(holding(rest, r) == 0);
        } else {
            lemma_holding(first + size, end, size, r);
        }
    }
}

/// A range of rows names each of them once, and no other row.
pub proof fn lemma_listed(first: int, n: int, r: int)
    requires
        0 <= first,
        0 <= n,
        first + n <= u32::MAX,
    ensures
        listed(Seq::new(n as nat, |i: int| (first + i) as u32), r) == if first <= r < first + n {
            1int
        } else {
            0
        },
    decreases n,
{
    if n > 0 {
        let list = Seq::new(n as nat, |i: int| (first + i) as u32);
        assert(list.drop_last() =~= Seq::new((n - 1) as nat, |i: int| (first + i) as u32));
        lemma_listed(first, n - 1, r);
    }
}

/// In how many quads a row lies. A quad names its first row in word `at` and
/// its row count in the word behind it.
pub open spec fn within(t: Seq<u32>, at: int, r: int) -> int
    decreases t.len(),
{
    if t.len() < 4 {
        0
    } else {
        (if t[at] <= r < t[at] + t[at + 1] { 1int } else { 0 }) + within(t.skip(4), at, r)
    }
}

pub proof fn lemma_within_join(a: Seq<u32>, b: Seq<u32>, at: int, r: int)
    requires
        a.len() % 4 == 0,
        0 <= at <= 2,
    ensures
        within(a + b, at, r) == within(a, at, r) + within(b, at, r),
    decreases a.len(),
{
    if a.len() < 4 {
        assert(a + b =~= b);
    } else {
        assert((a + b).skip(4) =~= a.skip(4) + b);
        lemma_within_join(a.skip(4), b, at, r);
    }
}

pub fn push_rows(out: &mut Vec<u32>, first: usize, end: usize)
    requires
        first <= end <= MAX_ROWS,
    ensures
        final(out)@ == old(out)@ + Seq::new((end - first) as nat, |i: int| (first + i) as u32),
{
    let mut r: usize = first;
    assert(out@ =~= old(out)@ + Seq::new(0, |i: int| (first + i) as u32));
    while r < end
        invariant
            first <= r <= end <= MAX_ROWS,
            out@ == old(out)@ + Seq::new((r - first) as nat, |i: int| (first + i) as u32),
        decreases end - r,
    {
        out.push(r as u32);
        assert(out@ =~= old(out)@ + Seq::new((r + 1 - first) as nat, |i: int| (first + i) as u32));
        r = r + 1;
    }
}

pub fn same_tokens(a: &Vec<u32>, b: &Vec<u32>) -> (r: bool)
    ensures
        r == (a@ == b@),
{
    if a.len() != b.len() {
        return false;
    }
    let mut i: usize = 0;
    while i < a.len()
        invariant
            i <= a.len(),
            a.len() == b.len(),
            forall|j: int| 0 <= j < i ==> a[j] == b[j],
        decreases a.len() - i,
    {
        if a[i] != b[i] {
            return false;
        }
        i = i + 1;
    }
    assert(a@ =~= b@);
    true
}

} // verus!
