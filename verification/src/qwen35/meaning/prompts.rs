//! Where the rows of a laid prompt stand.
use vstd::prelude::*;
use crate::arith::max;
use crate::qwen35::graph::MAX_CONTEXT;
use crate::qwen35::layout::{chunks_sized, lay_chunks, level, Chunk, Laid};

verus! {

/// One more than the greatest coordinate of the first `n` rows.
pub open spec fn peak(positions: Seq<Seq<u32>>, n: int) -> int
    decreases n,
{
    if n <= 0 {
        0
    } else {
        let p = positions[n - 1];
        max(peak(positions, n - 1), 1 + max(max(p[0] as int, p[1] as int), p[2] as int))
    }
}

/// Cell `c` of an image `across` cells wide whose first row is `first` stands
/// in raster order: it shares the first coordinate with the others; its right
/// neighbour has the same second and the next third coordinate, the one below
/// it the next second and the same third.
pub open spec fn cell_stands(at: Seq<Seq<u32>>, first: int, across: int, count: int, c: int) -> bool {
    let cell = at[first + c];
    let right = at[first + c + 1];
    let below = at[first + c + across];
    &&& cell.len() == 4
    &&& cell[0] == at[first][0]
    &&& cell[3] == 0
    &&& c + 1 < count && (c + 1) % across != 0 ==> right[1] == cell[1] && right[2] == cell[2] + 1
    &&& c + across < count ==> below[1] == cell[1] + 1 && below[2] == cell[2]
}

proof fn lemma_peak_prefix(a: Seq<Seq<u32>>, b: Seq<Seq<u32>>, n: int)
    requires
        n <= a.len(),
        n <= b.len(),
        forall|i: int| 0 <= i < n ==> a[i] == b[i],
    ensures
        peak(a, n) == peak(b, n),
    decreases n,
{
    if n > 0 {
        lemma_peak_prefix(a, b, n - 1);
    }
}

proof fn lemma_peak_bounds(a: Seq<Seq<u32>>, from: int, n: int, top: int)
    requires
        0 <= from <= n <= a.len(),
        peak(a, from) <= top,
        forall|i: int|
            from <= i < n ==> (#[trigger] a[i])[0] < top && a[i][1] < top && a[i][2] < top,
    ensures
        peak(a, from) <= peak(a, n) <= top,
        forall|i: int|
            from <= i < n ==> (#[trigger] a[i])[0] < peak(a, n) && a[i][1] < peak(a, n) && a[i][2]
                < peak(a, n),
    decreases n - from,
{
    if from < n {
        lemma_peak_bounds(a, from, n - 1, top);
    }
}

proof fn lemma_level(a: Seq<Seq<u32>>, from: int, n: int, base: int)
    requires
        0 <= from <= n <= a.len(),
        0 <= base,
        base + n - from <= u32::MAX,
        peak(a, from) == base,
        forall|i: int| from <= i < n ==> #[trigger] a[i] == level(base + i - from),
    ensures
        peak(a, n) == base + n - from,
    decreases n - from,
{
    if from < n {
        lemma_level(a, from, n - 1, base);
        assert(a[n - 1] == level(base + n - 1 - from));
    }
}

proof fn lemma_grid(nx: int, ny: int, j: int)
    requires
        0 < nx,
        0 < ny,
        0 <= j < nx * ny,
    ensures
        0 <= j / nx < ny,
        0 <= j % nx < nx,
        j == nx * (j / nx) + j % nx,
        (j + 1) % nx != 0 ==> (j + 1) / nx == j / nx && (j + 1) % nx == j % nx + 1,
        (j + nx) / nx == j / nx + 1,
        (j + nx) % nx == j % nx,
        max(nx, ny) <= nx * ny,
{
    vstd::arithmetic::div_mod::lemma_fundamental_div_mod(j, nx);
    vstd::arithmetic::div_mod::lemma_mod_bound(j, nx);
    vstd::arithmetic::div_mod::lemma_div_pos_is_pos(j, nx);
    let q = j / nx;
    let r = j % nx;
    assert(q < ny) by (nonlinear_arith)
        requires
            j == nx * q + r,
            0 <= r,
            j < nx * ny,
            0 < nx,
    ;
    assert(nx * (q + 1) == nx * q + nx && q * nx == nx * q && (q + 1) * nx == nx * q + nx) by (nonlinear_arith);
    vstd::arithmetic::div_mod::lemma_fundamental_div_mod_converse(j + nx, nx, q + 1, r);
    if r + 1 < nx {
        vstd::arithmetic::div_mod::lemma_fundamental_div_mod_converse(j + 1, nx, q, r + 1);
    } else {
        vstd::arithmetic::div_mod::lemma_fundamental_div_mod_converse(j + 1, nx, q + 1, 0);
    }
    assert(nx <= nx * ny && ny <= nx * ny) by (nonlinear_arith)
        requires
            0 < nx,
            0 < ny,
    ;
}

/// The state of a prompt between its parts.
pub open spec fn well_laid(l: Laid, context: int) -> bool {
    &&& l.positions.len() == l.ids.len() <= context
    &&& l.final_position == peak(l.positions, l.positions.len() as int)
    &&& 0 <= l.final_position <= l.ids.len()
}

/// The next part leaves the rows before it where they are. A text row stands
/// right above every row before it, with one coordinate throughout; an image
/// starts there, and its cells stand in raster order.
#[verifier::rlimit(60)]
#[verifier::spinoff_prover]
pub proof fn prompts_keep_the_raster_of_their_images(chunks: Seq<Chunk>, n: int, vocab: usize, context: usize)
    requires
        context <= MAX_CONTEXT,
        0 <= n <= chunks.len(),
        chunks_sized(chunks),
    ensures
        lay_chunks(chunks, n, vocab, context) matches Ok(l) ==> {
            &&& well_laid(l, context as int)
            &&& n > 0 ==> {
                let before = lay_chunks(chunks, n - 1, vocab, context)->Ok_0;
                let at = l.positions;
                let first = before.positions.len() as int;
                &&& first <= at.len()
                &&& at.take(first) == before.positions
                &&& match chunks[n - 1] {
                    Chunk::Text(ids) => {
                        &&& l.ids == before.ids + ids@
                        &&& forall|i: int|
                            first <= i < at.len() ==> #[trigger] at[i] == level(peak(at, i))
                    },
                    Chunk::Image { rgb, w, h, hash, size } => {
                        let (tw, th) = size->0;
                        let key = l.keys.last();
                        let count = (tw as int / 32) * (th as int / 32);
                        &&& l.keys.len() == before.keys.len() + 1
                        &&& key.offset == first
                        &&& key.nx == tw as int / 32
                        &&& key.ny == th as int / 32
                        &&& at.len() == first + count
                        &&& at[first].take(3) == level(peak(at, first)).take(3)
                        &&& forall|c: int|
                            0 <= c < count ==> #[trigger] cell_stands(at, first, key.nx as int, count, c)
                    },
                    Chunk::Other => true,
                }
            }
        },
    decreases n,
{
    if n > 0 {
        prompts_keep_the_raster_of_their_images(chunks, n - 1, vocab, context);
        match lay_chunks(chunks, n, vocab, context) {
            Err(_) => {},
            Ok(l) => {
                let before = lay_chunks(chunks, n - 1, vocab, context)->Ok_0;
                let at = l.positions;
                let old = before.positions;
                let first = old.len() as int;
                let base = before.final_position;
                assert(chunks[n - 1] is Text || chunks[n - 1] is Image);
                match chunks[n - 1] {
                    Chunk::Text(ids) => {
                        assert(at.take(first) =~= old);
                        lemma_peak_prefix(old, at, first);
                        assert forall|i: int| first <= i < at.len() implies #[trigger] at[i] == level(peak(at, i)) by {
                            lemma_level(at, first, i, base);
                        }
                        lemma_level(at, first, at.len() as int, base);
                    },
                    Chunk::Image { rgb, w, h, hash, size } => {
                        let (tw, th) = size->0;
                        let nx = tw as int / 32;
                        let ny = th as int / 32;
                        let count = nx * ny;
                        assert(crate::qwen35::layout::chunk_sized(chunks[n - 1]));
                        assert(0 < nx && 0 < ny);
                        assert(0 < nx * ny) by (nonlinear_arith)
                            requires
                                0 < nx,
                                0 < ny,
                        ;
                        lemma_grid(nx, ny, 0);
                        assert(at.take(first) =~= old);
                        lemma_peak_prefix(old, at, first);
                        assert(at[first].take(3) =~= level(peak(at, first)).take(3));
                        assert forall|c: int| 0 <= c < count implies #[trigger] cell_stands(at, first, nx, count, c) by {
                            lemma_grid(nx, ny, c);
                            if c + 1 < count {
                                lemma_grid(nx, ny, c + 1);
                            }
                            if c + nx < count {
                                lemma_grid(nx, ny, c + nx);
                            }
                        }
                        let top = base + max(nx, ny);
                        assert forall|i: int| first <= i < at.len() implies (#[trigger] at[i])[0] < top && at[i][1] < top
                            && at[i][2] < top by {
                            lemma_grid(nx, ny, i - first);
                        }
                        lemma_peak_bounds(at, first, at.len() as int, top);
                        assert(nx - 1 < nx * ny && 0 <= nx * (ny - 1) < nx * ny) by (nonlinear_arith)
                            requires
                                0 < nx,
                                0 < ny,
                        ;
                        assert((ny - 1) * nx == nx * (ny - 1)) by (nonlinear_arith);
                        vstd::arithmetic::div_mod::lemma_small_mod((nx - 1) as nat, nx as nat);
                        vstd::arithmetic::div_mod::lemma_fundamental_div_mod_converse(
                            nx * (ny - 1),
                            nx,
                            ny - 1,
                            0,
                        );
                        assert(at[first + nx - 1][2] == base + nx - 1);
                        assert(at[first + nx * (ny - 1)][1] == base + ny - 1);
                    },
                    Chunk::Other => {},
                }
            },
        }
    }
}

} // verus!
