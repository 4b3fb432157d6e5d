//! The size at which the tower sees an image: multiples of 28 pixels near the
//! image's own size and inside the pixel budget.
//!
//! Everything but the square-root scaling of an image outside its budget is
//! integer arithmetic. That scaling is handed in as two counts of cells.
use vstd::prelude::*;
use crate::error::{Fault, MetalError};

verus! {

/// Pixels of one merged cell's side.
pub const CELL: u64 = 28;

/// The most pixels that the tower takes.
pub const MAX_PIXELS: u64 = 1605632;

/// `n / d` rounded to the nearest integer, halves to the even one.
pub open spec fn round_even(n: int, d: int) -> int {
    let q = n / d;
    let r = n % d;
    if 2 * r > d || (2 * r == d && q % 2 == 1) { q + 1 } else { q }
}

/// Width and height, the shorter side raised to one cell.
pub open spec fn raised(w: int, h: int) -> (int, int) {
    let (w1, h1) = if h < 28 { (round_even(w * 28, h), 28int) } else { (w, h) };
    if w1 < 28 { (28int, round_even(h1 * 28, w1)) } else { (w1, h1) }
}

/// What an image becomes.
#[derive(Clone, Copy, Debug, PartialEq, Eq, Structural)]
pub enum Fit {
    /// This many pixels each way.
    Exact { w: u64, h: u64 },
    /// Shrink `w` by `h` so that the area meets the budget; whole cells are
    /// rounded down.
    Shrink { w: u64, h: u64, max: u64 },
    /// Grow it so; whole cells are rounded up.
    Grow { w: u64, h: u64, min: u64 },
}

pub open spec fn within_limits(w: int, h: int, min: int, max: int) -> bool {
    &&& 0 < w <= 16384
    &&& 0 < h <= 16384
    &&& 784 <= min <= max <= 1605632
}

pub open spec fn too_long(w: int, h: int) -> bool {
    w > 200 * h || h > 200 * w
}

pub open spec fn fit(w: int, h: int, min: int, max: int) -> Result<Fit, MetalError> {
    if !within_limits(w, h, min, max) {
        Err(MetalError::Model(Fault::Pixels))
    } else {
        let (w1, h1) = raised(w, h);
        let tw = round_even(w1, 28) * 28;
        let th = round_even(h1, 28) * 28;
        if too_long(w1, h1) {
            Err(MetalError::Model(Fault::Aspect))
        } else if tw * th > max {
            Ok(Fit::Shrink { w: w1 as u64, h: h1 as u64, max: max as u64 })
        } else if tw * th < min {
            Ok(Fit::Grow { w: w1 as u64, h: h1 as u64, min: min as u64 })
        } else {
            Ok(Fit::Exact { w: tw as u64, h: th as u64 })
        }
    }
}

/// The size after scaling, where `cells` counts the cells of a scaled width
/// and height.
pub open spec fn sized(f: Fit, cells: (u64, u64)) -> Result<(u64, u64), MetalError> {
    let (w, h) = match f {
        Fit::Exact { w, h } => (w as int, h as int),
        _ => (cells.0 * 28, cells.1 * 28),
    };
    if w < 28 || h < 28 || w * h > 1605632 {
        Err(MetalError::Model(Fault::Patches))
    } else {
        Ok((w as u64, h as u64))
    }
}

/// The tower size of an image, or why it has none.
pub open spec fn resized(w: int, h: int, min: int, max: int, cells: (u64, u64)) -> Result<
    (u64, u64),
    MetalError,
> {
    match fit(w, h, min, max) {
        Err(e) => Err(e),
        Ok(f) => sized(f, cells),
    }
}

fn rounded(n: u64, d: u64) -> (r: u64)
    requires
        0 < d <= 16384,
        n <= 0x1000_0000,
    ensures
        r == round_even(n as int, d as int),
        r <= n + 1,
{
    let q: u64 = n / d;
    let m: u64 = n % d;
    assert(q <= n) by (nonlinear_arith)
        requires
            q == n as int / d as int,
            0 < d,
            0 <= n,
    ;
    if 2 * m > d || (2 * m == d && q % 2 == 1) {
        q + 1
    } else {
        q
    }
}

/// The size of an image as far as integers give it.
pub fn resize_step(w: u64, h: u64, min: u64, max: u64) -> (r: Result<Fit, MetalError>)
    ensures
        r == fit(w as int, h as int, min as int, max as int),
{
    if w == 0 || h == 0 || w > 16384 || h > 16384 || min < 784 || min > max || max > MAX_PIXELS {
        return Err(MetalError::Model(Fault::Pixels));
    }
    let (w1, h1): (u64, u64) = if h < CELL { (rounded(w * CELL, h), CELL) } else { (w, h) };
    let (w2, h2): (u64, u64) = if w1 < CELL {
        proof {
            lemma_raised(w as int, h as int);
        }
        (CELL, rounded(h1 * CELL, w1))
    } else {
        (w1, h1)
    };
    if w2 > 200 * h2 || h2 > 200 * w2 {
        return Err(MetalError::Model(Fault::Aspect));
    }
    let tw: u64 = rounded(w2, CELL) * CELL;
    let th: u64 = rounded(h2, CELL) * CELL;
    assert(0 <= tw * th <= 0x10_0000 * 0x10_0000) by {
        crate::arith::lemma_product_bound(tw as int, th as int, 0x10_0000, 0x10_0000);
    }
    if tw * th > max {
        Ok(Fit::Shrink { w: w2, h: h2, max })
    } else if tw * th < min {
        Ok(Fit::Grow { w: w2, h: h2, min })
    } else {
        Ok(Fit::Exact { w: tw, h: th })
    }
}

/// A low image becomes at least as wide as its height was.
proof fn lemma_raised(w: int, h: int)
    requires
        0 < w,
        0 < h,
    ensures
        h < 28 ==> round_even(w * 28, h) >= 1,
{
    if h < 28 {
        assert(w * 28 / h >= 1) by (nonlinear_arith)
            requires
                0 < w,
                0 < h < 28,
        ;
    }
}

/// The final size, given the cells of a scaled image.
pub fn resize_finish(f: Fit, cells: (u64, u64)) -> (r: Result<(u64, u64), MetalError>)
    ensures
        r == sized(f, cells),
{
    let (w, h): (u128, u128) = match f {
        Fit::Exact { w, h } => (w as u128, h as u128),
        Fit::Shrink { .. } => (cells.0 as u128 * 28, cells.1 as u128 * 28),
        Fit::Grow { .. } => (cells.0 as u128 * 28, cells.1 as u128 * 28),
    };
    if w < 28 || h < 28 {
        return Err(MetalError::Model(Fault::Patches));
    }
    if w > MAX_PIXELS as u128 || h > MAX_PIXELS as u128 {
        assert(w * h > 1605632) by (nonlinear_arith)
            requires
                w >= 28,
                h >= 28,
                w > 1605632 || h > 1605632,
        ;
        return Err(MetalError::Model(Fault::Patches));
    }
    proof {
        crate::arith::lemma_product_bound(w as int, h as int, 1605632, 1605632);
    }
    if w * h > MAX_PIXELS as u128 {
        Err(MetalError::Model(Fault::Patches))
    } else {
        Ok((w as u64, h as u64))
    }
}

/// The whole choice, for a chunk that brings the cells of its scaled size.
pub fn resize(w: u64, h: u64, min: u64, max: u64, cells: (u64, u64)) -> (r: Result<
    (u64, u64),
    MetalError,
>)
    ensures
        r == resized(w as int, h as int, min as int, max as int, cells),
{
    match resize_step(w, h, min, max) {
        Err(e) => Err(e),
        Ok(f) => resize_finish(f, cells),
    }
}

proof fn lemma_round(n: int, d: int)
    requires
        0 <= n,
        0 < d,
    ensures
        0 <= round_even(n, d),
        2 * n - d <= 2 * d * round_even(n, d) <= 2 * n + d,
{
    let q = n / d;
    let r = n % d;
    vstd::arithmetic::div_mod::lemma_fundamental_div_mod(n, d);
    vstd::arithmetic::div_mod::lemma_mod_bound(n, d);
    vstd::arithmetic::div_mod::lemma_div_pos_is_pos(n, d);
    assert(2 * d * q == 2 * (d * q)) by (nonlinear_arith);
    assert(2 * d * (q + 1) == 2 * (d * q) + 2 * d) by (nonlinear_arith);
}

proof fn lemma_raised_bound(w: int, h: int)
    requires
        0 < w <= 16384,
        0 < h <= 16384,
    ensures
        28 <= raised(w, h).0 <= 458752,
        28 <= raised(w, h).1 <= 458752,
{
    if h < 28 {
        lemma_raised(w, h);
        lemma_round(w * 28, h);
        let a = round_even(w * 28, h);
        assert(a <= 458752) by (nonlinear_arith)
            requires
                2 * h * a <= 2 * (w * 28) + h,
                0 < h < 28,
                0 < w <= 16384,
        ;
        if a < 28 {
            lemma_round(784, a);
            let b = round_even(784, a);
            assert(28 <= b <= 785) by (nonlinear_arith)
                requires
                    2 * 784 - a <= 2 * a * b <= 2 * 784 + a,
                    0 < a < 28,
            ;
        }
    } else if w < 28 {
        lemma_round(h * 28, w);
        let b = round_even(h * 28, w);
        assert(28 <= b <= 458752) by (nonlinear_arith)
            requires
                2 * (h * 28) - w <= 2 * w * b <= 2 * (h * 28) + w,
                0 < w < 28,
                28 <= h <= 16384,
        ;
    }
}

/// Every size that is granted is whole cells, at least one each way, and at
/// most as many pixels as the tower takes.
pub proof fn granted_sizes_are_whole_cells(w: int, h: int, min: int, max: int, cells: (u64, u64))
    requires
        resized(w, h, min, max, cells) is Ok,
    ensures
        ({
            let (tw, th) = resized(w, h, min, max, cells)->Ok_0;
            &&& tw % 28 == 0
            &&& th % 28 == 0
            &&& 28 <= tw
            &&& 28 <= th
            &&& tw * th <= 1605632
            &&& tw <= 57344
            &&& th <= 57344
        }),
{
    lemma_raised_bound(w, h);
    let (w1, h1) = raised(w, h);
    let f = fit(w, h, min, max)->Ok_0;
    let (a, b) = match f {
        Fit::Exact { w, h } => (w as int, h as int),
        _ => (cells.0 * 28, cells.1 * 28),
    };
    lemma_round(w1, 28);
    lemma_round(h1, 28);
    assert(a <= 57344 && b <= 57344) by (nonlinear_arith)
        requires
            a >= 28,
            b >= 28,
            a * b <= 1605632,
    ;
}

/// An image whose rounded size is already inside its budget is not scaled,
/// and its area meets both bounds.
pub proof fn sizes_inside_the_budget_stay(w: int, h: int, min: int, max: int)
    requires
        fit(w, h, min, max) matches Ok(f) && f is Exact,
    ensures
        ({
            let f = fit(w, h, min, max)->Ok_0;
            &&& f->Exact_w == round_even(raised(w, h).0, 28) * 28
            &&& f->Exact_h == round_even(raised(w, h).1, 28) * 28
            &&& min <= f->Exact_w * f->Exact_h <= max
        }),
{
    lemma_raised_bound(w, h);
    let (w1, h1) = raised(w, h);
    lemma_round(w1, 28);
    lemma_round(h1, 28);
}

} // verus!
