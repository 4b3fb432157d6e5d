//! Where the rows of a laid prompt stand.
use vstd::prelude::*;
use crate::arith::max;
use crate::paddleocr::graph::{level, IMAGE};
use crate::paddleocr::multimodal::{
    cell_position, lay_chunks, pixel_budget, with_image, with_text, Chunk, Laid,
};
use crate::paddleocr::resize::{granted_sizes_are_whole_cells, resized};
use crate::paddleocr::vision::Picture;

verus! {

/// One more than the greatest coordinate of the first `n` rows.
pub open spec fn peak(positions: Seq<Seq<u32>>, n: int) -> int
    decreases n,
{
    if n <= 0 {
        0
    } else {
        let p = positions[n - 1];
        max(peak(positions, n - 1), 1 + max(max(p[0] as int, p[1] as int), p[2] as int))
    }
}

/// Cell `c` of image `k` stands in raster order: it shares the first
/// coordinate with the others; its right neighbour has the same second and the
/// next third coordinate, the one below it the next second and the same third.
pub open spec fn cell_stands(l: Laid, k: int, c: int) -> bool {
    let (image, first, count) = l.request.spans[k];
    let at = l.request.positions;
    let across = l.images[k].tw as int / 28;
    let cell = at[first + c];
    let right = at[first + c + 1];
    let below = at[first + c + across];
    &&& l.request.ids[first + c] == IMAGE
    &&& cell.len() == 4
    &&& cell[0] == at[first as int][0]
    &&& cell[3] == 0
    &&& c + 1 < count && (c + 1) % across != 0 ==> right[1] == cell[1] && right[2] == cell[2] + 1
    &&& c + across < count ==> below[1] == cell[1] + 1 && below[2] == cell[2]
}

/// Image `k` of a prompt has a row for every cell, in raster order, and starts
/// above every row before it.
pub open spec fn in_raster(l: Laid, k: int) -> bool {
    let (image, first, count) = l.request.spans[k];
    let at = l.request.positions;
    let p = l.images[k];
    &&& image == k
    &&& count == (p.tw as int / 28) * (p.th as int / 28)
    &&& 0 < count
    &&& first + count <= at.len()
    &&& at[first as int] == level(peak(at, first as int))
    &&& forall|c: int| 0 <= c < count ==> #[trigger] cell_stands(l, k, c)
}

/// A prompt as it should be laid: a text row stands right above every row
/// before it, with one coordinate throughout, and images stand in raster
/// order.
pub open spec fn well_laid(l: Laid) -> bool {
    let r = l.request;
    &&& r.positions.len() == r.ids.len()
    &&& r.next == peak(r.positions, r.positions.len() as int)
    &&& r.spans.len() == l.images.len()
    &&& forall|i: int|
        0 <= i < r.ids.len() && r.ids[i] != IMAGE ==> #[trigger] r.positions[i] == level(
            peak(r.positions, i),
        )
    &&& forall|k: int| 0 <= k < r.spans.len() ==> #[trigger] in_raster(l, k)
}

proof fn lemma_peak_prefix(a: Seq<Seq<u32>>, b: Seq<Seq<u32>>, n: int)
    requires
        n <= a.len(),
        n <= b.len(),
        forall|i: int| 0 <= i < n ==> a[i] == b[i],
    ensures
        peak(a, n) == peak(b, n),
    decreases n,
{
    if n > 0 {
        lemma_peak_prefix(a, b, n - 1);
    }
}

proof fn lemma_peak_bounds(a: Seq<Seq<u32>>, from: int, n: int, top: int)
    requires
        0 <= from <= n <= a.len(),
        peak(a, from) <= top,
        forall|i: int|
            from <= i < n ==> (#[trigger] a[i])[0] < top && a[i][1] < top && a[i][2] < top,
    ensures
        peak(a, from) <= peak(a, n) <= top,
    decreases n - from,
{
    if from < n {
        lemma_peak_bounds(a, from, n - 1, top);
    }
}

proof fn lemma_text(l: Laid, ids: Seq<u32>)
    requires
        well_laid(l),
        l.request.next + ids.len() <= u32::MAX,
        forall|i: int| 0 <= i < ids.len() ==> ids[i] != IMAGE,
    ensures
        well_laid(with_text(l, ids)),
    decreases ids.len(),
{
    let old = l.request.positions;
    let all = with_text(l, ids).request.positions;
    let base = old.len() as int;
    lemma_peak_prefix(old, all, base);
    if ids.len() > 0 {
        let less = ids.drop_last();
        lemma_text(l, less);
        let before = with_text(l, less).request.positions;
        let n = before.len() as int;
        assert(all =~= before.push(level(l.request.next + less.len())));
        assert(with_text(l, ids).request.ids =~= with_text(l, less).request.ids.push(ids.last()));
        let t = with_text(l, ids);
        let u = with_text(l, less);
        lemma_peak_prefix(before, all, n);
        assert(t.request.next == u.request.next + 1);
        assert(all[n] == level(u.request.next));
        assert(peak(all, n + 1) == t.request.next);
        assert forall|i: int| 0 <= i < t.request.ids.len() && t.request.ids[i] != IMAGE implies #[trigger] all[i]
            == level(peak(all, i)) by {
            lemma_peak_prefix(before, all, i);
            if i < n {
                assert(u.request.ids[i] == t.request.ids[i]);
                assert(before[i] == level(peak(before, i)));
            }
        }
        assert forall|k: int| 0 <= k < t.request.spans.len() implies #[trigger] in_raster(t, k) by {
            lemma_same_image(with_text(l, less), t, k);
        }
    } else {
        assert(all =~= old);
        assert(with_text(l, ids).request.ids =~= l.request.ids);
        let t = with_text(l, ids);
        assert forall|k: int| 0 <= k < t.request.spans.len() implies #[trigger] in_raster(t, k) by {
            lemma_same_image(l, t, k);
        }
    }
}

/// Rows that come later do not move an image.
proof fn lemma_same_image(a: Laid, b: Laid, k: int)
    requires
        in_raster(a, k),
        a.request.ids.len() == a.request.positions.len(),
        0 <= k < a.request.spans.len(),
        k < a.images.len(),
        k < b.request.spans.len(),
        b.request.spans[k] == a.request.spans[k],
        b.images[k] == a.images[k],
        a.request.positions.len() <= b.request.positions.len(),
        a.request.ids.len() <= b.request.ids.len(),
        forall|i: int|
            0 <= i < a.request.positions.len() ==> b.request.positions[i] == a.request.positions[i],
        forall|i: int| 0 <= i < a.request.ids.len() ==> b.request.ids[i] == a.request.ids[i],
    ensures
        in_raster(b, k),
{
    let (image, first, count) = a.request.spans[k];
    lemma_peak_prefix(a.request.positions, b.request.positions, first as int);
    assert forall|c: int| 0 <= c < count implies #[trigger] cell_stands(b, k, c) by {
        assert(cell_stands(a, k, c));
    }
}

proof fn lemma_cells(across: int, down: int, c: int)
    requires
        0 < across,
        0 < down,
        0 <= c < across * down,
    ensures
        0 <= c / across < down,
        0 <= c % across < across,
        (c + 1) % across != 0 ==> (c + 1) / across == c / across && (c + 1) % across == c % across + 1,
        (c + across) / across == c / across + 1,
        (c + across) % across == c % across,
        c == across * down - 1 ==> c / across == down - 1 && c % across == across - 1,
{
    let q = c / across;
    let r = c % across;
    vstd::arithmetic::div_mod::lemma_fundamental_div_mod(c, across);
    vstd::arithmetic::div_mod::lemma_mod_bound(c, across);
    vstd::arithmetic::div_mod::lemma_div_pos_is_pos(c, across);
    assert(q < down) by (nonlinear_arith)
        requires
            c == across * q + r,
            0 <= r,
            c < across * down,
            0 < across,
    ;
    if r + 1 < across {
        vstd::arithmetic::div_mod::lemma_fundamental_div_mod_converse(c + 1, across, q, r + 1);
    } else {
        assert(c + 1 == across * (q + 1)) by (nonlinear_arith)
            requires
                c == across * q + r,
                r + 1 == across,
        ;
        assert((q + 1) * across + 0 == across * (q + 1)) by (nonlinear_arith);
        vstd::arithmetic::div_mod::lemma_fundamental_div_mod_converse(c + 1, across, q + 1, 0);
    }
    assert(c + across == across * (q + 1) + r) by (nonlinear_arith)
        requires
            c == across * q + r,
    ;
    vstd::arithmetic::div_mod::lemma_fundamental_div_mod_converse(c + across, across, q + 1, r);
    if c == across * down - 1 {
        assert(c == across * (down - 1) + (across - 1)) by (nonlinear_arith)
            requires
                c == across * down - 1,
        ;
        vstd::arithmetic::div_mod::lemma_fundamental_div_mod_converse(c, across, down - 1, across - 1);
    }
}

proof fn lemma_image(l: Laid, p: Picture)
    requires
        well_laid(l),
        l.images.len() < usize::MAX,
        l.request.ids.len() <= usize::MAX,
        28 <= p.tw <= 57344,
        28 <= p.th <= 57344,
        (p.tw as int / 28) * (p.th as int / 28) <= 32768,
        l.request.next + p.tw + p.th <= u32::MAX,
    ensures
        well_laid(with_image(l, p)),
{
    let old = l.request.positions;
    let t = with_image(l, p);
    let at = t.request.positions;
    let across = p.tw as int / 28;
    let down = p.th as int / 28;
    let n = across * down;
    let base = old.len() as int;
    let next = l.request.next;
    let top = next + max(across, down);
    assert(0 < n) by (nonlinear_arith)
        requires
            0 < across,
            0 < down,
            n == across * down,
    ;
    assert(forall|i: int| 0 <= i < base ==> at[i] == old[i]);
    lemma_peak_prefix(old, at, base);
    assert forall|c: int| 0 <= c < n implies at[base + c] == #[trigger] cell_position(next, across, c) by {
        assert(at[base + c] == at.skip(base)[c]);
    }
    assert forall|i: int| base <= i < base + n implies (#[trigger] at[i])[0] < top && at[i][1] < top
        && at[i][2] < top by {
        lemma_cells(across, down, i - base);
        assert(at[i] == cell_position(next, across, i - base));
    }
    lemma_peak_bounds(at, base, base + n, top);
    assert(peak(at, base + n) == top) by {
        let c = n - 1;
        lemma_cells(across, down, c);
        assert(at[base + c] == cell_position(next, across, c));
    }
    assert(at.len() == base + n);
    assert forall|i: int| 0 <= i < t.request.ids.len() && t.request.ids[i] != IMAGE implies #[trigger] at[i]
        == level(peak(at, i)) by {
        if i < base {
            assert(t.request.ids[i] == l.request.ids[i]);
            lemma_peak_prefix(old, at, i);
            assert(old[i] == level(peak(old, i)));
        }
    }
    assert forall|k: int| 0 <= k < t.request.spans.len() implies #[trigger] in_raster(t, k) by {
        if k < l.request.spans.len() {
            assert(in_raster(l, k));
            lemma_same_image(l, t, k);
        } else {
            let first = base;
            lemma_cells(across, down, 0);
            assert(at[first] == cell_position(next, across, 0));
            vstd::arithmetic::div_mod::lemma_small_mod(0, across as nat);
            assert(0int / across == 0 && 0int % across == 0) by {
                vstd::arithmetic::div_mod::lemma_fundamental_div_mod_converse(0, across, 0, 0);
            }
            assert(at[first] =~= level(next));
            assert forall|c: int| 0 <= c < n implies #[trigger] cell_stands(t, k, c) by {
                lemma_cells(across, down, c);
                assert(at[base + c] == cell_position(next, across, c));
                if c + 1 < n {
                    assert(at[base + (c + 1)] == cell_position(next, across, c + 1));
                }
                if c + across < n {
                    lemma_cells(across, down, c + across);
                    assert(at[base + (c + across)] == cell_position(next, across, c + across));
                }
            }
        }
    }
}

/// A laid prompt stands as it should: text rows follow each other above all
/// that came before, every image keeps the lines and columns of its cells, and
/// what follows an image starts above it.
pub proof fn prompts_keep_the_raster_of_their_images(slot: usize, chunks: Seq<Chunk>, context: usize, n: int)
    requires
        0 <= n <= chunks.len(),
        context <= 32768,
        lay_chunks(slot, chunks, context, n) is Ok,
    ensures
        well_laid(lay_chunks(slot, chunks, context, n)->Ok_0),
        lay_chunks(slot, chunks, context, n)->Ok_0.request.ids.len() <= context,
        ({
            let l = lay_chunks(slot, chunks, context, n)->Ok_0;
            l.request.next <= l.request.ids.len() && l.images.len() <= l.request.ids.len()
        }),
    decreases n,
{
    if n > 0 {
        prompts_keep_the_raster_of_their_images(slot, chunks, context, n - 1);
        let l = lay_chunks(slot, chunks, context, n - 1)->Ok_0;
        match chunks[n - 1] {
            Chunk::Text(ids) => {
                assert forall|i: int| 0 <= i < ids.len() implies ids@[i] != IMAGE by {
                    assert(ids[i] == ids@[i]);
                }
                lemma_text(l, ids@);
            },
            Chunk::Image { rgb, w, h, cells } => {
                let budget = pixel_budget(chunks, chunks.len() as int);
                granted_sizes_are_whole_cells(w as int, h as int, budget.0 as int, budget.1 as int, cells);
                let (tw, th) = resized(
                    w as int,
                    h as int,
                    budget.0 as int,
                    budget.1 as int,
                    cells,
                )->Ok_0;
                let (a, b) = (tw as int / 28, th as int / 28);
                assert(1 <= a * b && max(a, b) <= a * b) by (nonlinear_arith)
                    requires
                        1 <= a,
                        1 <= b,
                ;
                lemma_image(l, Picture { rgb: rgb@, w, h, tw: tw as usize, th: th as usize });
            },
            _ => {},
        }
    }
}

} // verus!
