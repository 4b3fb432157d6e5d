//! Durable keys of prefixes with images: a chain of whole pages, each followed
//! by the images that start in it.
use vstd::prelude::*;
use crate::arith::BLOCK_TOKENS;
use crate::qwen35::image::{all_wf, any_inside, cuts_image, identity_bytes, keys, ImageKey, Key};

verus! {

/// One link of a prefix chain, as the contracts see it.
pub enum Chained {
    Page(Seq<u32>),
    Image(Seq<u8>),
}

/// One link of a prefix chain: the tokens of a page, or the identity of an
/// image.
#[derive(Debug)]
pub enum Link {
    Page(Vec<u32>),
    Image(Vec<u8>),
}

impl View for Link {
    type V = Chained;

    open spec fn view(&self) -> Chained {
        match self {
            Link::Page(tokens) => Chained::Page(tokens@),
            Link::Image(bytes) => Chained::Image(bytes@),
        }
    }
}

pub open spec fn linked(links: Seq<Link>) -> Seq<Chained> {
    links.map_values(|l: Link| l@)
}

/// The images that start in `start..end`, as links.
pub open spec fn starting(images: Seq<Key>, start: int, end: int) -> Seq<Chained>
    decreases images.len(),
{
    if images.len() == 0 {
        Seq::empty()
    } else {
        let before = starting(images.drop_last(), start, end);
        let k = images.last();
        if start <= k.offset < end { before.push(Chained::Image(identity_bytes(k))) } else { before }
    }
}

/// The chain of the first `pages` pages.
pub open spec fn chain(tokens: Seq<u32>, images: Seq<Key>, pages: int) -> Seq<Chained>
    decreases pages,
{
    if pages <= 0 {
        Seq::empty()
    } else {
        chain(tokens, images, pages - 1).push(
            Chained::Page(tokens.subrange((pages - 1) * 16, pages * 16)),
        ) + starting(images, (pages - 1) * 16, pages * 16)
    }
}

fn push_page(out: &mut Vec<Link>, tokens: &Vec<u32>, start: usize)
    requires
        start + 16 <= tokens.len(),
    ensures
        linked(final(out)@) == linked(old(out)@).push(
            Chained::Page(tokens@.subrange(start as int, start + 16)),
        ),
{
    let ghost before = out@;
    let mut page: Vec<u32> = Vec::new();
    let mut i: usize = 0;
    while i < BLOCK_TOKENS
        invariant
            i <= 16,
            start + 16 <= tokens.len(),
            page@ == tokens@.subrange(start as int, start + i),
        decreases 16 - i,
    {
        page.push(tokens[start + i]);
        i = i + 1;
        assert(page@ =~= tokens@.subrange(start as int, start + i));
    }
    out.push(Link::Page(page));
    assert(linked(out@) =~= linked(before).push(
        Chained::Page(tokens@.subrange(start as int, start + 16)),
    ));
}

fn push_images(out: &mut Vec<Link>, images: &Vec<ImageKey>, start: usize, end: usize)
    ensures
        linked(final(out)@) == linked(old(out)@) + starting(keys(images@), start as int, end as int),
{
    let ghost before = linked(out@);
    let ghost all = keys(images@);
    let mut i: usize = 0;
    assert(all.take(0) =~= Seq::<Key>::empty());
    assert(linked(out@) =~= before + starting(all.take(0), start as int, end as int));
    while i < images.len()
        invariant
            i <= images.len(),
            all == keys(images@),
            linked(out@) == before + starting(all.take(i as int), start as int, end as int),
        decreases images.len() - i,
    {
        let ghost held = out@;
        let ghost next = all.take(i + 1);
        proof {
            assert(next.drop_last() =~= all.take(i as int));
            assert(next.last() == images[i as int]@);
        }
        if images[i].starts_in(start, end) {
            out.push(Link::Image(images[i].identity()));
            assert(linked(out@) =~= linked(held).push(Chained::Image(identity_bytes(next.last()))));
        }
        assert(linked(out@) =~= before + starting(next, start as int, end as int));
        i = i + 1;
    }
    assert(all.take(images.len() as int) =~= all);
}

/// The chain of every whole page of a prefix.
pub fn prefix_chain(tokens: &Vec<u32>, images: &Vec<ImageKey>) -> (r: Vec<Link>)
    ensures
        linked(r@) == chain(tokens@, keys(images@), tokens.len() as int / 16),
{
    let mut out: Vec<Link> = Vec::new();
    let pages: usize = tokens.len() / BLOCK_TOKENS;
    let mut i: usize = 0;
    assert(linked(out@) =~= chain(tokens@, keys(images@), 0));
    while i < pages
        invariant
            i <= pages,
            pages == tokens.len() as int / 16,
            linked(out@) == chain(tokens@, keys(images@), i as int),
        decreases pages - i,
    {
        push_page(&mut out, tokens, i * BLOCK_TOKENS);
        push_images(&mut out, images, i * BLOCK_TOKENS, (i + 1) * BLOCK_TOKENS);
        i = i + 1;
    }
    out
}

/// Lengths at which a prefix of this prompt can be kept: whole pages, at
/// least three, not the whole prompt, and never inside an image.
pub open spec fn image_boundaries(len: int, images: Seq<Key>, pages: int) -> Seq<usize>
    decreases pages,
{
    if pages <= 0 {
        Seq::empty()
    } else {
        let before = image_boundaries(len, images, pages - 1);
        let n = pages * 16;
        if n >= 48 && n < len && !cuts_image(images, n) { before.push(n as usize) } else { before }
    }
}

/// The lengths worth looking up, shortest first. The key of length `n` is the
/// chain of its first `n / 16` pages.
pub fn kept_lengths(tokens: &Vec<u32>, images: &Vec<ImageKey>) -> (r: Vec<usize>)
    requires
        all_wf(images@),
    ensures
        r@ == image_boundaries(tokens.len() as int, keys(images@), tokens.len() as int / 16),
{
    let mut out: Vec<usize> = Vec::new();
    let pages: usize = tokens.len() / BLOCK_TOKENS;
    let mut i: usize = 0;
    while i < pages
        invariant
            i <= pages,
            pages == tokens.len() as int / 16,
            all_wf(images@),
            out@ == image_boundaries(tokens.len() as int, keys(images@), i as int),
        decreases pages - i,
    {
        let n: usize = (i + 1) * BLOCK_TOKENS;
        if n >= 3 * BLOCK_TOKENS && n < tokens.len() && !any_inside(images, n) {
            out.push(n);
        }
        i = i + 1;
    }
    out
}

/// No prompt is ever looked up at a length inside one of its images.
pub proof fn kept_lengths_spare_images(len: int, images: Seq<Key>, pages: int, i: int)
    requires
        0 <= pages,
        pages * 16 <= len <= usize::MAX,
        0 <= i < image_boundaries(len, images, pages).len(),
    ensures
        ({
            let n = image_boundaries(len, images, pages)[i];
            &&& n % 16 == 0
            &&& 48 <= n < len
            &&& !cuts_image(images, n as int)
        }),
    decreases pages,
{
    if pages > 0 && i < image_boundaries(len, images, pages - 1).len() {
        kept_lengths_spare_images(len, images, pages - 1, i);
    }
}

proof fn lemma_starting_are_images(images: Seq<Key>, start: int, end: int)
    ensures
        forall|j: int|
            0 <= j < starting(images, start, end).len() ==> (#[trigger] starting(images, start, end)[j]) is Image,
    decreases images.len(),
{
    if images.len() > 0 {
        lemma_starting_are_images(images.drop_last(), start, end);
    }
}

/// Equal chains mean equal prefixes: the same tokens page for page, and in
/// each page the same images with the same digest, size, place and grid.
pub proof fn equal_chains_mean_equal_prefixes(
    a: Seq<u32>,
    x: Seq<Key>,
    b: Seq<u32>,
    y: Seq<Key>,
    pages: int,
)
    requires
        0 <= pages,
        pages * 16 <= a.len(),
        pages * 16 <= b.len(),
        chain(a, x, pages) == chain(b, y, pages),
    ensures
        a.take(pages * 16) == b.take(pages * 16),
        forall|p: int|
            0 <= p < pages ==> #[trigger] starting(x, p * 16, (p + 1) * 16) == starting(
                y,
                p * 16,
                (p + 1) * 16,
            ),
    decreases pages,
{
    if pages > 0 {
        let c = chain(a, x, pages);
        let d = chain(b, y, pages);
        let m = chain(a, x, pages - 1).len() as int;
        let n = chain(b, y, pages - 1).len() as int;
        let s = starting(x, (pages - 1) * 16, pages * 16);
        let t = starting(y, (pages - 1) * 16, pages * 16);
        lemma_starting_are_images(x, (pages - 1) * 16, pages * 16);
        lemma_starting_are_images(y, (pages - 1) * 16, pages * 16);
        let p = a.subrange((pages - 1) * 16, pages * 16);
        let q = b.subrange((pages - 1) * 16, pages * 16);
        let f = chain(a, x, pages - 1).push(Chained::Page(p));
        let g = chain(b, y, pages - 1).push(Chained::Page(q));
        assert(c == f + s);
        assert(d == g + t);
        assert(f.len() == m + 1 && g.len() == n + 1);
        assert(c.len() == d.len() && n < d.len() && m < c.len());
        assert(c[m] is Page);
        assert(d[n] is Page);
        if m < n {
            assert((f + s)[n] == s[n - f.len()]);
        }
        if n < m {
            assert((g + t)[m] == t[m - g.len()]);
        }
        assert(c.take(m) =~= chain(a, x, pages - 1));
        assert(d.take(n) =~= chain(b, y, pages - 1));
        assert(c.skip(m + 1) =~= s);
        assert(d.skip(n + 1) =~= t);
        equal_chains_mean_equal_prefixes(a, x, b, y, pages - 1);
        assert(c[m] == Chained::Page(p));
        assert(d[n] == Chained::Page(q));
        assert(p == q);
        assert forall|i: int| 0 <= i < pages * 16 implies a[i] == b[i] by {
            if i >= (pages - 1) * 16 {
                assert(a[i] == p[i - (pages - 1) * 16]);
                assert(b[i] == q[i - (pages - 1) * 16]);
            } else {
                assert(a[i] == a.take((pages - 1) * 16)[i]);
                assert(b[i] == b.take((pages - 1) * 16)[i]);
            }
        }
        assert(a.take(pages * 16) =~= b.take(pages * 16));
    } else {
        assert(a.take(0) =~= b.take(0));
    }
}

} // verus!
