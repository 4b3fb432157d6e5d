//! Integer helpers shared by the planners.
use vstd::prelude::*;

verus! {

/// Tokens per physical attention page.
pub const BLOCK_TOKENS: usize = 16;

/// The most rows that one tick can carry.
pub const MAX_ROWS: usize = 65536;

/// The bit pattern of the single-precision number one.
pub const ONE: u32 = 0x3f80_0000;

/// `n / d`, rounded up.
pub open spec fn ceil_div(n: int, d: int) -> int {
    n / d + if n % d == 0 { 0int } else { 1 }
}

pub open spec fn max(a: int, b: int) -> int {
    if a >= b { a } else { b }
}

pub open spec fn min(a: int, b: int) -> int {
    if a <= b { a } else { b }
}

/// Rounding up never loses an element and never adds a whole group.
pub proof fn lemma_ceil_div(n: int, d: int)
    requires
        0 <= n,
        0 < d,
    ensures
        n <= ceil_div(n, d) * d < n + d,
        0 <= ceil_div(n, d) <= n,
{
    let q = n / d;
    let r = n % d;
    assert(n == d * q + r && 0 <= r < d) by {
        vstd::arithmetic::div_mod::lemma_fundamental_div_mod(n, d);
        vstd::arithmetic::div_mod::lemma_mod_bound(n, d);
    }
    assert((q + 1) * d == q * d + d) by (nonlinear_arith);
    assert(q * d == d * q) by (nonlinear_arith);
    assert(0 <= q) by (nonlinear_arith)
        requires
            n == d * q + r,
            0 <= n,
            r < d,
            0 < d,
    ;
    assert(q <= d * q) by (nonlinear_arith)
        requires
            0 <= q,
            0 < d,
    ;
}

pub fn div_ceil(n: usize, d: usize) -> (r: usize)
    requires
        0 < d,
    ensures
        r == ceil_div(n as int, d as int),
        r <= n,
{
    proof {
        lemma_ceil_div(n as int, d as int);
    }
    if n % d == 0 {
        n / d
    } else {
        n / d + 1
    }
}

/// A product of two counts that is known to stay under `bound`.
pub proof fn lemma_product_bound(a: int, b: int, x: int, y: int)
    requires
        0 <= a <= x,
        0 <= b <= y,
    ensures
        0 <= a * b <= x * y,
{
    assert(0 <= a * b <= x * y) by (nonlinear_arith)
        requires
            0 <= a <= x,
            0 <= b <= y,
    ;
}

/// `rows * width`, for the rows of one tick, padding included, of at most
/// 32768 elements.
pub fn area(rows: usize, width: usize) -> (r: usize)
    requires
        rows <= MAX_ROWS + 256,
        width <= 0x8000,
    ensures
        r == rows * width,
        r <= 0x8080_0000,
{
    proof {
        lemma_product_bound(rows as int, width as int, 0x1_0100, 0x8000);
    }
    rows * width
}

/// Thread groups of 256 that cover `rows * width` elements.
pub open spec fn groups(rows: int, width: int) -> int {
    ceil_div(rows * width, 256)
}

pub fn groups256(rows: usize, width: usize) -> (r: usize)
    requires
        rows <= MAX_ROWS + 256,
        width <= 0x8000,
    ensures
        r == groups(rows as int, width as int),
{
    div_ceil(area(rows, width), 256)
}

/// An elementwise launch has a thread for every element, and fewer than one
/// group of idle threads.
pub proof fn groups_cover(rows: int, width: int)
    requires
        0 <= rows,
        0 <= width,
    ensures
        rows * width <= groups(rows, width) * 256 < rows * width + 256,
{
    assert(0 <= rows * width) by (nonlinear_arith)
        requires
            0 <= rows,
            0 <= width,
    ;
    lemma_ceil_div(rows * width, 256);
}

} // verus!
