//! What the tables of a wave tell the tower.
use vstd::prelude::*;
use crate::arith::min;
use crate::paddleocr::vision::{
    image_tiles, merge_order_is_a_permutation, patch_count, patch_places, patches_before, picture_wf,
    pictures_wf, wave_places, Picture,
};

verus! {

/// Two words per patch, column first: both lie in the image and give the
/// patch back in the order in which four of them merge into a cell.
pub proof fn places_give_their_patch_back(p: Picture, n: int, r: int)
    requires
        picture_wf(p),
        0 <= r < n <= patch_count(p),
        patch_count(p) <= u32::MAX,
    ensures
        ({
            let across = p.tw as int / 14;
            let down = p.th as int / 14;
            let x = patch_places(p, n)[2 * r] as int;
            let y = patch_places(p, n)[2 * r + 1] as int;
            &&& patch_places(p, n).len() == 2 * n
            &&& x < across
            &&& y < down
            &&& r == ((y / 2) * (across / 2) + x / 2) * 4 + (y % 2) * 2 + x % 2
        }),
{
    merge_order_is_a_permutation(p, r);
}

/// The words of an image stand behind those of the images before it.
pub proof fn waves_keep_the_places_of_their_images(s: Seq<Picture>, n: int, i: int, k: int)
    requires
        pictures_wf(s),
        0 <= i < n <= s.len(),
        0 <= k < 2 * patch_count(s[i]),
    ensures
        wave_places(s, n).len() == 2 * patches_before(s, n),
        wave_places(s, n)[2 * patches_before(s, i) + k] == patch_places(s[i], patch_count(s[i]))[k],
    decreases n,
{
    lemma_places_len(s, n - 1);
    lemma_places_len(s, i);
    assert(patch_count(s[n - 1]) >= 0) by {
        crate::paddleocr::vision::patches_are_whole_cells(s[n - 1]);
    }
    if i < n - 1 {
        waves_keep_the_places_of_their_images(s, n - 1, i, k);
        lemma_order(s, i, n - 1);
    }
}

proof fn lemma_order(s: Seq<Picture>, i: int, n: int)
    requires
        pictures_wf(s),
        0 <= i < n <= s.len(),
    ensures
        patches_before(s, i) + patch_count(s[i]) <= patches_before(s, n),
    decreases n,
{
    if i < n - 1 {
        lemma_order(s, i, n - 1);
        crate::paddleocr::vision::patches_are_whole_cells(s[n - 1]);
    }
}

proof fn lemma_places_len(s: Seq<Picture>, n: int)
    requires
        pictures_wf(s),
        0 <= n <= s.len(),
    ensures
        wave_places(s, n).len() == 2 * patches_before(s, n),
        patches_before(s, n) >= 0,
    decreases n,
{
    if n > 0 {
        lemma_places_len(s, n - 1);
        crate::paddleocr::vision::patches_are_whole_cells(s[n - 1]);
    }
}

/// Four words per tile: its first row and its rows, inside the image whose
/// first row and rows follow. The tiles of an image follow one another and
/// reach its end.
pub proof fn tiles_cover_their_image(offset: int, count: int, q: int, j: int)
    requires
        0 <= offset,
        0 <= q <= count,
        offset + count + 32 <= u32::MAX,
        0 <= j,
        4 * j < image_tiles(offset, count, q).len(),
    ensures
        ({
            let t = image_tiles(offset, count, q);
            let first = t[4 * j] as int;
            let rows = t[4 * j + 1] as int;
            &&& t.len() % 4 == 0
            &&& t[4 * j + 2] == offset
            &&& t[4 * j + 3] == count
            &&& offset <= first
            &&& 1 <= rows <= 32
            &&& first + rows <= offset + count
            &&& j == 0 ==> first == offset + q
            &&& j > 0 ==> first == t[4 * (j - 1)] + t[4 * (j - 1) + 1]
            &&& 4 * (j + 1) == t.len() <==> first + rows == offset + count
        }),
    decreases count - q,
{
    let t = image_tiles(offset, count, q);
    if q < count {
        let head = seq![(offset + q) as u32, min(count - q, 32) as u32, offset as u32, count as u32];
        let rest = image_tiles(offset, count, q + 32);
        assert(t == head + rest);
        assert(forall|k: int| 4 <= k < t.len() ==> t[k] == rest[k - 4]);
        if q + 32 < count {
            lemma_some(offset, count, q + 32);
            tiles_cover_their_image(offset, count, q + 32, 0);
            if j > 0 {
                tiles_cover_their_image(offset, count, q + 32, j - 1);
                assert(t[4 * j] == rest[4 * (j - 1)]);
                assert(t[4 * j + 1] == rest[4 * (j - 1) + 1]);
                assert(t[4 * j + 2] == rest[4 * (j - 1) + 2]);
                assert(t[4 * j + 3] == rest[4 * (j - 1) + 3]);
                if j > 1 {
                    assert(t[4 * (j - 1)] == rest[4 * (j - 2)]);
                    assert(t[4 * (j - 1) + 1] == rest[4 * (j - 2) + 1]);
                }
            }
        } else {
            assert(rest.len() == 0);
        }
    }
}

proof fn lemma_some(offset: int, count: int, q: int)
    requires
        q < count,
    ensures
        image_tiles(offset, count, q).len() > 0,
{
}

} // verus!
