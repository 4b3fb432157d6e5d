//! Durable identity of image rows: pixels, geometry and position.
use vstd::prelude::*;
use std::sync::Arc;
use vstd::bytes::{spec_u64_to_le_bytes, u64_to_le_bytes};

verus! {

/// An image as the contracts see it.
pub struct Key {
    pub digest: Seq<u8>,
    pub hash: u64,
    pub rgb: Seq<u8>,
    pub w: usize,
    pub h: usize,
    pub offset: usize,
    pub nx: usize,
    pub ny: usize,
}

impl Key {
    /// One past the last prompt row of the image.
    pub open spec fn end(self) -> int {
        self.offset + self.nx * self.ny
    }

    pub open spec fn inside(self, cut: int) -> bool {
        self.offset < cut < self.end()
    }

    pub open spec fn same_pixels(self, other: Key) -> bool {
        self.hash == other.hash && self.w == other.w && self.h == other.h && self.rgb == other.rgb
    }
}

/// One image of a prompt: `nx * ny` rows from `offset`.
#[derive(Debug)]
pub struct ImageKey {
    pub digest: [u8; 32],
    pub hash: u64,
    pub rgb: Arc<Vec<u8>>,
    pub w: usize,
    pub h: usize,
    pub offset: usize,
    pub nx: usize,
    pub ny: usize,
}

impl View for ImageKey {
    type V = Key;

    open spec fn view(&self) -> Key {
        Key {
            digest: self.digest@,
            hash: self.hash,
            rgb: self.rgb@,
            w: self.w,
            h: self.h,
            offset: self.offset,
            nx: self.nx,
            ny: self.ny,
        }
    }
}

pub open spec fn keys(images: Seq<ImageKey>) -> Seq<Key> {
    images.map_values(|k: ImageKey| k@)
}

/// Digest, pixel size, offset and grid, each number in eight little-endian
/// bytes.
pub open spec fn identity_bytes(k: Key) -> Seq<u8> {
    k.digest + spec_u64_to_le_bytes(k.w as u64) + spec_u64_to_le_bytes(k.h as u64)
        + spec_u64_to_le_bytes(k.offset as u64) + spec_u64_to_le_bytes(k.nx as u64)
        + spec_u64_to_le_bytes(k.ny as u64)
}

/// Two images chain alike only if digest, pixel size, position and grid all
/// agree: a collision of the 64-bit hash cannot alias them.
pub proof fn identity_commits_digest_geometry_and_position(a: Key, b: Key)
    requires
        a.digest.len() == 32,
        b.digest.len() == 32,
        identity_bytes(a) == identity_bytes(b),
    ensures
        a.digest == b.digest,
        a.w == b.w,
        a.h == b.h,
        a.offset == b.offset,
        a.nx == b.nx,
        a.ny == b.ny,
{
    vstd::bytes::lemma_auto_spec_u64_to_from_le_bytes();
    let x = identity_bytes(a);
    let y = identity_bytes(b);
    assert(x.subrange(0, 32) =~= a.digest);
    assert(y.subrange(0, 32) =~= b.digest);
    assert(x.subrange(32, 40) =~= spec_u64_to_le_bytes(a.w as u64));
    assert(y.subrange(32, 40) =~= spec_u64_to_le_bytes(b.w as u64));
    assert(x.subrange(40, 48) =~= spec_u64_to_le_bytes(a.h as u64));
    assert(y.subrange(40, 48) =~= spec_u64_to_le_bytes(b.h as u64));
    assert(x.subrange(48, 56) =~= spec_u64_to_le_bytes(a.offset as u64));
    assert(y.subrange(48, 56) =~= spec_u64_to_le_bytes(b.offset as u64));
    assert(x.subrange(56, 64) =~= spec_u64_to_le_bytes(a.nx as u64));
    assert(y.subrange(56, 64) =~= spec_u64_to_le_bytes(b.nx as u64));
    assert(x.subrange(64, 72) =~= spec_u64_to_le_bytes(a.ny as u64));
    assert(y.subrange(64, 72) =~= spec_u64_to_le_bytes(b.ny as u64));
}

/// The images that end at or before `cut`, in order.
pub open spec fn ended(images: Seq<Key>, cut: int) -> Seq<Key>
    decreases images.len(),
{
    if images.len() == 0 {
        Seq::empty()
    } else if images[0].end() <= cut {
        seq![images[0]] + ended(images.drop_first(), cut)
    } else {
        ended(images.drop_first(), cut)
    }
}

pub open spec fn cuts_image(images: Seq<Key>, cut: int) -> bool {
    exists|i: int| 0 <= i < images.len() && (#[trigger] images[i]).inside(cut)
}

/// A prefix of `cut` rows is shared: neither side has an image across the
/// cut, and the images before it agree.
pub open spec fn prefix_matches(old: Seq<Key>, new: Seq<Key>, cut: int) -> bool {
    &&& !cuts_image(old, cut)
    &&& !cuts_image(new, cut)
    &&& ended(old, cut) == ended(new, cut)
}

/// No prefix is ever shared up to a point inside an image.
pub proof fn never_cut_inside_an_image(old: Seq<Key>, new: Seq<Key>, cut: int, i: int)
    requires
        0 <= i < new.len(),
        new[i].inside(cut),
    ensures
        !prefix_matches(old, new, cut),
{
}

/// Images that start at or after the cut do not matter: different future
/// images never poison an earlier text prefix.
pub proof fn future_images_do_not_matter(old: Seq<Key>, new: Seq<Key>, cut: int)
    requires
        forall|i: int| 0 <= i < old.len() ==> cut <= (#[trigger] old[i]).offset && old[i].offset < old[i].end(),
        forall|i: int| 0 <= i < new.len() ==> cut <= (#[trigger] new[i]).offset && new[i].offset < new[i].end(),
    ensures
        prefix_matches(old, new, cut),
{
    lemma_none_ended(old, cut);
    lemma_none_ended(new, cut);
}

proof fn lemma_none_ended(images: Seq<Key>, cut: int)
    requires
        forall|i: int| 0 <= i < images.len() ==> cut < (#[trigger] images[i]).end(),
    ensures
        ended(images, cut) == Seq::<Key>::empty(),
    decreases images.len(),
{
    if images.len() > 0 {
        assert(images[0].end() > cut);
        assert forall|i: int| 0 <= i < images.drop_first().len() implies cut < (
        #[trigger] images.drop_first()[i]).end() by {
            assert(images.drop_first()[i] == images[i + 1]);
        }
        lemma_none_ended(images.drop_first(), cut);
    }
}

/// A prompt shares every prefix of itself that ends outside its images, and
/// sharing goes both ways.
pub proof fn prefix_matching_is_symmetric_and_reflexive(a: Seq<Key>, b: Seq<Key>, cut: int)
    ensures
        prefix_matches(a, b, cut) == prefix_matches(b, a, cut),
        prefix_matches(a, a, cut) == !cuts_image(a, cut),
{
}

pub open spec fn all_wf(images: Seq<ImageKey>) -> bool {
    forall|i: int| 0 <= i < images.len() ==> (#[trigger] images[i]).wf()
}

pub fn any_inside(images: &Vec<ImageKey>, cut: usize) -> (r: bool)
    requires
        all_wf(images@),
    ensures
        r == cuts_image(keys(images@), cut as int),
{
    let mut i: usize = 0;
    while i < images.len()
        invariant
            i <= images.len(),
            all_wf(images@),
            forall|j: int| 0 <= j < i ==> !(#[trigger] keys(images@)[j]).inside(cut as int),
        decreases images.len() - i,
    {
        assert(keys(images@)[i as int] == images[i as int]@);
        if images[i].inside(cut) {
            return true;
        }
        i = i + 1;
    }
    false
}

/// Skip images that end after the cut.
fn next_ended(images: &Vec<ImageKey>, from: usize, cut: usize) -> (r: usize)
    requires
        from <= images.len(),
        all_wf(images@),
    ensures
        from <= r <= images.len(),
        r < images.len() ==> images[r as int]@.end() <= cut,
        ended(keys(images@).skip(from as int), cut as int) == ended(keys(images@).skip(r as int), cut as int),
{
    let ghost all = keys(images@);
    let mut i: usize = from;
    while i < images.len() && images[i].end() > cut
        invariant
            from <= i <= images.len(),
            all_wf(images@),
            all == keys(images@),
            ended(all.skip(from as int), cut as int) == ended(all.skip(i as int), cut as int),
        decreases images.len() - i,
    {
        assert(all.skip(i as int)[0] == images[i as int]@);
        assert(all.skip(i as int).drop_first() =~= all.skip(i + 1));
        i = i + 1;
    }
    i
}

/// Whether a stored prefix of `cut` rows with images `old` serves a prompt
/// with images `new`.
pub fn prefix_images_match(old: &Vec<ImageKey>, new: &Vec<ImageKey>, cut: usize) -> (r: bool)
    requires
        all_wf(old@),
        all_wf(new@),
    ensures
        r == prefix_matches(keys(old@), keys(new@), cut as int),
{
    if any_inside(old, cut) || any_inside(new, cut) {
        return false;
    }
    let ghost a = keys(old@);
    let ghost b = keys(new@);
    let mut i: usize = 0;
    let mut j: usize = 0;
    proof {
        assert(a.skip(0) =~= a);
        assert(b.skip(0) =~= b);
    }
    loop
        invariant
            i <= old.len(),
            j <= new.len(),
            all_wf(old@),
            all_wf(new@),
            a == keys(old@),
            b == keys(new@),
            !cuts_image(a, cut as int),
            !cuts_image(b, cut as int),
            (ended(a, cut as int) == ended(b, cut as int)) == (ended(a.skip(i as int), cut as int)
                == ended(b.skip(j as int), cut as int)),
        decreases old.len() - i,
    {
        let x: usize = next_ended(old, i, cut);
        let y: usize = next_ended(new, j, cut);
        let ghost p = a.skip(x as int);
        let ghost q = b.skip(y as int);
        if x == old.len() || y == new.len() {
            proof {
                if x < old.len() {
                    assert(p[0] == old[x as int]@);
                    assert(ended(p, cut as int)[0] == p[0]);
                }
                if y < new.len() {
                    assert(q[0] == new[y as int]@);
                    assert(ended(q, cut as int)[0] == q[0]);
                }
            }
            return x == old.len() && y == new.len();
        }
        proof {
            assert(p[0] == old[x as int]@);
            assert(q[0] == new[y as int]@);
            assert(ended(p, cut as int)[0] == p[0]);
            assert(ended(q, cut as int)[0] == q[0]);
            assert(p.drop_first() =~= a.skip(x + 1));
            assert(q.drop_first() =~= b.skip(y + 1));
            assert(ended(p, cut as int).drop_first() =~= ended(a.skip(x + 1), cut as int));
            assert(ended(q, cut as int).drop_first() =~= ended(b.skip(y + 1), cut as int));
            if ended(a.skip(x + 1), cut as int) == ended(b.skip(y + 1), cut as int) && p[0] == q[0] {
                assert(ended(p, cut as int) =~= ended(q, cut as int));
            }
        }
        if !old[x].same(&new[y]) {
            return false;
        }
        i = x + 1;
        j = y + 1;
    }
}

pub fn same_images(a: &Vec<ImageKey>, b: &Vec<ImageKey>) -> (r: bool)
    ensures
        r == (keys(a@) == keys(b@)),
{
    if a.len() != b.len() {
        assert(keys(a@).len() != keys(b@).len());
        return false;
    }
    let mut i: usize = 0;
    while i < a.len()
        invariant
            i <= a.len(),
            a.len() == b.len(),
            forall|j: int| 0 <= j < i ==> keys(a@)[j] == keys(b@)[j],
        decreases a.len() - i,
    {
        assert(keys(a@)[i as int] == a[i as int]@);
        assert(keys(b@)[i as int] == b[i as int]@);
        if !a[i].same(&b[i]) {
            return false;
        }
        i = i + 1;
    }
    assert(keys(a@) =~= keys(b@));
    true
}

pub fn copy_images(images: &Vec<ImageKey>) -> (r: Vec<ImageKey>)
    ensures
        keys(r@) == keys(images@),
        all_wf(images@) ==> all_wf(r@),
{
    let mut r: Vec<ImageKey> = Vec::new();
    let mut i: usize = 0;
    while i < images.len()
        invariant
            i <= images.len(),
            r.len() == i,
            forall|j: int| 0 <= j < i ==> (#[trigger] r[j])@ == images[j]@,
        decreases images.len() - i,
    {
        r.push(images[i].copy());
        i = i + 1;
    }
    assert(keys(r@) =~= keys(images@));
    r
}

/// The images that end at or before the cut.
pub fn ended_images(images: &Vec<ImageKey>, cut: usize) -> (r: Vec<ImageKey>)
    requires
        all_wf(images@),
    ensures
        keys(r@) == ended(keys(images@), cut as int),
        all_wf(r@),
{
    let ghost all = keys(images@);
    let mut r: Vec<ImageKey> = Vec::new();
    let mut i: usize = images.len();
    assert(all.skip(images.len() as int) =~= Seq::<Key>::empty());
    assert(keys(r@) =~= Seq::<Key>::empty());
    while i > 0
        invariant
            i <= images.len(),
            all_wf(images@),
            all_wf(r@),
            all == keys(images@),
            keys(r@) == ended(all.skip(i as int), cut as int),
        decreases i,
    {
        i = i - 1;
        let ghost held = r@;
        proof {
            assert(all.skip(i as int)[0] == images[i as int]@);
            assert(all.skip(i as int).drop_first() =~= all.skip(i + 1));
        }
        if images[i].end() <= cut {
            r.insert(0, images[i].copy());
            assert(keys(r@) =~= seq![images[i as int]@] + keys(held));
        }
    }
    assert(all.skip(0) =~= all);
    r
}

fn bytes_equal(a: &Vec<u8>, b: &Vec<u8>) -> (r: bool)
    ensures
        r == (a@ == b@),
{
    if a.len() != b.len() {
        return false;
    }
    let mut i: usize = 0;
    while i < a.len()
        invariant
            i <= a.len(),
            a.len() == b.len(),
            forall|j: int| 0 <= j < i ==> a[j] == b[j],
        decreases a.len() - i,
    {
        if a[i] != b[i] {
            return false;
        }
        i = i + 1;
    }
    assert(a@ =~= b@);
    true
}

fn digest_equal(a: &[u8; 32], b: &[u8; 32]) -> (r: bool)
    ensures
        r == (a@ == b@),
{
    let mut i: usize = 0;
    while i < 32
        invariant
            i <= 32,
            forall|j: int| 0 <= j < i ==> a[j] == b[j],
        decreases 32 - i,
    {
        if a[i] != b[i] {
            return false;
        }
        i = i + 1;
    }
    assert(a@ =~= b@);
    true
}

impl ImageKey {
    /// The image's rows fit the machine's counters.
    pub open spec fn wf(&self) -> bool {
        self@.end() <= usize::MAX
    }

    pub fn end(&self) -> (r: usize)
        requires
            self.wf(),
        ensures
            r == self@.end(),
    {
        assert(self.nx * self.ny >= 0) by (nonlinear_arith);
        self.offset + self.nx * self.ny
    }

    pub fn starts_in(&self, start: usize, end: usize) -> (r: bool)
        ensures
            r == (start <= self.offset < end),
    {
        self.offset >= start && self.offset < end
    }

    pub fn inside(&self, cut: usize) -> (r: bool)
        requires
            self.wf(),
        ensures
            r == self@.inside(cut as int),
    {
        cut > self.offset && cut < self.end()
    }

    /// Equal pixels, whatever their place in the prompt.
    pub fn same_image(&self, other: &Self) -> (r: bool)
        ensures
            r == self@.same_pixels(other@),
    {
        self.hash == other.hash && self.w == other.w && self.h == other.h && bytes_equal(
            &self.rgb,
            &other.rgb,
        )
    }

    /// Equal in every respect.
    pub fn same(&self, other: &Self) -> (r: bool)
        ensures
            r == (self@ == other@),
    {
        let r = self.hash == other.hash && self.w == other.w && self.h == other.h && self.offset
            == other.offset && self.nx == other.nx && self.ny == other.ny && digest_equal(
            &self.digest,
            &other.digest,
        ) && bytes_equal(&self.rgb, &other.rgb);
        r
    }

    /// The bytes that chain this image into a durable prefix key.
    pub fn identity(&self) -> (r: Vec<u8>)
        ensures
            r@ == identity_bytes(self@),
    {
        let mut r: Vec<u8> = Vec::new();
        let mut i: usize = 0;
        while i < 32
            invariant
                i <= 32,
                r@ == self.digest@.take(i as int),
            decreases 32 - i,
        {
            r.push(self.digest[i]);
            assert(self.digest@.take(i + 1) =~= self.digest@.take(i as int).push(self.digest[i as int]));
            i = i + 1;
        }
        assert(self.digest@.take(32) =~= self.digest@);
        let mut w = u64_to_le_bytes(self.w as u64);
        let mut h = u64_to_le_bytes(self.h as u64);
        let mut offset = u64_to_le_bytes(self.offset as u64);
        let mut nx = u64_to_le_bytes(self.nx as u64);
        let mut ny = u64_to_le_bytes(self.ny as u64);
        r.append(&mut w);
        r.append(&mut h);
        r.append(&mut offset);
        r.append(&mut nx);
        r.append(&mut ny);
        r
    }

    pub fn copy(&self) -> (r: Self)
        ensures
            r@ == self@,
    {
        ImageKey {
            digest: self.digest,
            hash: self.hash,
            rgb: self.rgb.clone(),
            w: self.w,
            h: self.h,
            offset: self.offset,
            nx: self.nx,
            ny: self.ny,
        }
    }
}

} // verus!
