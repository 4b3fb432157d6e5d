//! Layout of a multimodal prompt: token rows, image rows, rotary coordinates
//! and attention limits.
use vstd::prelude::*;
use std::sync::Arc;
use crate::arith::max;
use crate::digest::{blake3_hash, hash};
use crate::error::{Fault, MetalError};
use crate::qwen35::graph::MAX_CONTEXT;
use crate::qwen35::image::{all_wf, keys, ImageKey, Key};
use crate::qwen35::state::Layout;

verus! {

/// One part of a prompt, as it is admitted.
#[derive(Debug)]
pub enum Chunk {
    Text(Vec<u32>),
    Image {
        rgb: Vec<u8>,
        w: usize,
        h: usize,
        /// A fast fingerprint of pixels and size, equal for equal images.
        hash: u64,
        /// The tower's size for this image; none where it refuses it.
        size: Option<(usize, usize)>,
    },
    /// A part that this family does not take.
    Other,
}

/// The rows of a layout, as the contracts see them. The encodings of its
/// images come later and stand beside it.
pub struct Laid {
    pub ids: Seq<u32>,
    pub keys: Seq<Key>,
    pub positions: Seq<Seq<u32>>,
    pub limits: Seq<u32>,
    pub final_position: int,
}

pub open spec fn laid(l: Layout) -> Laid {
    Laid {
        ids: l.ids@,
        keys: keys(l.keys@),
        positions: l.positions@.map_values(|p: [u32; 4]| p@),
        limits: l.limits@,
        final_position: l.final_position as int,
    }
}

pub open spec fn nothing_laid() -> Laid {
    Laid {
        ids: Seq::empty(),
        keys: Seq::empty(),
        positions: Seq::empty(),
        limits: Seq::empty(),
        final_position: 0,
    }
}

/// Four equal coordinates.
pub open spec fn level(p: int) -> Seq<u32> {
    seq![p as u32, p as u32, p as u32, p as u32]
}

/// Text rows: one position each, attending up to themselves.
pub open spec fn with_text(l: Laid, ids: Seq<u32>) -> Laid {
    Laid {
        ids: l.ids + ids,
        keys: l.keys,
        positions: l.positions + Seq::new(ids.len(), |i: int| level(l.final_position + i)),
        limits: l.limits + Seq::new(ids.len(), |i: int| (l.ids.len() + i) as u32),
        final_position: l.final_position + ids.len(),
    }
}

/// Image rows: a shared temporal coordinate, raster row and column, and
/// raster-causal limits. The next text row stands one side length further.
pub open spec fn with_image(l: Laid, key: Key) -> Laid {
    let n = (key.nx * key.ny) as nat;
    Laid {
        ids: l.ids + Seq::new(n, |j: int| 0u32),
        keys: l.keys.push(key),
        positions: l.positions + Seq::new(
            n,
            |j: int|
                seq![
                    l.final_position as u32,
                    (l.final_position + j / (key.nx as int)) as u32,
                    (l.final_position + j % (key.nx as int)) as u32,
                    0u32,
                ],
        ),
        limits: l.limits + Seq::new(n, |j: int| (l.ids.len() + j) as u32),
        final_position: l.final_position + max(key.nx as int, key.ny as int),
    }
}

pub open spec fn image_key(rgb: Seq<u8>, w: usize, h: usize, hash: u64, offset: int, tw: usize, th: usize) -> Key {
    Key {
        digest: blake3_hash(rgb),
        hash,
        rgb,
        w,
        h,
        offset: offset as usize,
        nx: (tw as int / 32) as usize,
        ny: (th as int / 32) as usize,
    }
}

/// One part laid behind the others, or why it is refused.
pub open spec fn lay_chunk(l: Laid, chunk: Chunk, vocab: usize, context: usize) -> Result<Laid, Fault> {
    match chunk {
        Chunk::Text(ids) => if l.ids.len() + ids.len() > context || exists|i: int|
            0 <= i < ids.len() && #[trigger] ids[i] >= vocab {
            Err(Fault::PromptText)
        } else {
            Ok(with_text(l, ids@))
        },
        Chunk::Image { rgb, w, h, hash, size } => match size {
            None => Err(Fault::ImageSize),
            Some((tw, th)) => {
                let n = (tw as int / 32) * (th as int / 32);
                if rgb.len() != w * h * 3 {
                    Err(Fault::PixelCount)
                } else if l.ids.len() + n > context {
                    Err(Fault::ImageContext)
                } else {
                    Ok(with_image(l, image_key(rgb@, w, h, hash, l.ids.len() as int, tw, th)))
                }
            },
        },
        Chunk::Other => Err(Fault::Unsupported),
    }
}

/// The first `n` parts.
pub open spec fn lay_chunks(chunks: Seq<Chunk>, n: int, vocab: usize, context: usize) -> Result<Laid, Fault>
    decreases n,
{
    if n <= 0 {
        Ok(nothing_laid())
    } else {
        match lay_chunks(chunks, n - 1, vocab, context) {
            Err(f) => Err(f),
            Ok(l) => lay_chunk(l, chunks[n - 1], vocab, context),
        }
    }
}

/// A whole prompt. It must hold an image.
pub open spec fn lay_prompt(chunks: Seq<Chunk>, vocab: usize, context: usize) -> Result<Laid, Fault> {
    match lay_chunks(chunks, chunks.len() as int, vocab, context) {
        Err(f) => Err(f),
        Ok(l) => if l.keys.len() == 0 { Err(Fault::NoImage) } else { Ok(l) },
    }
}

/// The tower gives every accepted image at least one row each way.
pub open spec fn chunk_sized(c: Chunk) -> bool {
    match c {
        Chunk::Image { size: Some((tw, th)), .. } => tw >= 32 && th >= 32,
        _ => true,
    }
}

pub open spec fn chunks_sized(chunks: Seq<Chunk>) -> bool {
    forall|i: int| 0 <= i < chunks.len() ==> chunk_sized(#[trigger] chunks[i])
}

/// A layout under construction.
spec fn growing(l: Layout, context: int) -> bool {
    &&& l.positions.len() == l.ids.len()
    &&& l.limits.len() == l.ids.len()
    &&& l.ids.len() <= context
    &&& l.final_position <= l.ids.len()
    &&& all_wf(l.keys@)
    &&& forall|i: int| 0 <= i < l.keys.len() ==> (#[trigger] l.keys[i])@.end() <= l.ids.len()
    &&& forall|i: int| 0 <= i < l.limits.len() ==> #[trigger] l.limits[i] <= context
    &&& l.images.len() == 0
}

fn lay_text(l: &mut Layout, ids: &Vec<u32>, context: usize)
    requires
        growing(*old(l), context as int),
        old(l).ids.len() + ids.len() <= context <= MAX_CONTEXT,
    ensures
        growing(*final(l), context as int),
        laid(*final(l)) == with_text(laid(*old(l)), ids@),
{
    let ghost start = laid(*old(l));
    let mut i: usize = 0;
    proof {
        assert(start.ids + ids@.take(0) =~= start.ids);
        assert(start.positions + Seq::new(0, |i: int| level(start.final_position + i))
            =~= start.positions);
        assert(start.limits + Seq::new(0, |i: int| (start.ids.len() + i) as u32) =~= start.limits);
        assert(ids@.take(ids.len() as int) =~= ids@);
    }
    while i < ids.len()
        invariant
            i <= ids.len(),
            start == laid(*old(l)),
            growing(*l, context as int),
            start.ids.len() + ids.len() <= context <= MAX_CONTEXT,
            l.ids@ == start.ids + ids@.take(i as int),
            l.keys == old(l).keys,
            laid(*l).positions == start.positions + Seq::new(
                i as nat,
                |i: int| level(start.final_position + i),
            ),
            l.limits@ == start.limits + Seq::new(i as nat, |i: int| (start.ids.len() + i) as u32),
            l.final_position == start.final_position + i,
        decreases ids.len() - i,
    {
        let ghost before = laid(*l);
        let p: u32 = l.final_position;
        l.ids.push(ids[i]);
        l.positions.push([p, p, p, p]);
        l.limits.push(l.ids.len() as u32 - 1);
        l.final_position = p + 1;
        proof {
            assert(ids@.take(i + 1) =~= ids@.take(i as int).push(ids[i as int]));
            assert(l.ids@ =~= start.ids + ids@.take(i + 1));
            let row = l.positions[l.positions.len() - 1]@;
            assert(row =~= level(start.final_position + i));
            assert(laid(*l).positions =~= before.positions.push(row));
            assert(laid(*l).positions =~= start.positions + Seq::new(
                (i + 1) as nat,
                |i: int| level(start.final_position + i),
            ));
            assert(l.limits@ =~= start.limits + Seq::new(
                (i + 1) as nat,
                |i: int| (start.ids.len() + i) as u32,
            ));
        }
        i = i + 1;
    }
    proof {
        assert(laid(*l).ids =~= with_text(start, ids@).ids);
    }
}

fn lay_image(l: &mut Layout, key: ImageKey, context: usize)
    requires
        growing(*old(l), context as int),
        key.offset == old(l).ids.len(),
        key.nx >= 1,
        key.ny >= 1,
        old(l).ids.len() + key.nx * key.ny <= context <= MAX_CONTEXT,
    ensures
        growing(*final(l), context as int),
        laid(*final(l)) == with_image(laid(*old(l)), key@),
{
    let ghost start = laid(*old(l));
    let ghost view = key@;
    let nx: usize = key.nx;
    let ny: usize = key.ny;
    let p: u32 = l.final_position;
    let offset: usize = l.ids.len();
    assert(key.nx * key.ny >= key.nx && key.nx * key.ny >= key.ny) by (nonlinear_arith)
        requires
            key.nx >= 1,
            key.ny >= 1,
    ;
    let n: usize = nx * ny;
    let ghost places = Seq::new(
        n as nat,
        |j: int|
            seq![
                start.final_position as u32,
                (start.final_position + j / (view.nx as int)) as u32,
                (start.final_position + j % (view.nx as int)) as u32,
                0u32,
            ],
    );
    let mut j: usize = 0;
    proof {
        assert(start.ids + Seq::new(0, |j: int| 0u32) =~= start.ids);
        assert(start.positions + places.take(0) =~= start.positions);
        assert(start.limits + Seq::new(0, |j: int| (start.ids.len() + j) as u32) =~= start.limits);
    }
    while j < n
        invariant
            j <= n,
            start == laid(*old(l)),
            nx >= 1,
            nx == view.nx,
            p == start.final_position,
            offset == start.ids.len(),
            growing(*l, context as int),
            offset + n <= context <= MAX_CONTEXT,
            l.ids@ == start.ids + Seq::new(j as nat, |j: int| 0u32),
            l.keys == old(l).keys,
            places == Seq::new(
                n as nat,
                |j: int|
                    seq![
                        start.final_position as u32,
                        (start.final_position + j / (view.nx as int)) as u32,
                        (start.final_position + j % (view.nx as int)) as u32,
                        0u32,
                    ],
            ),
            laid(*l).positions == start.positions + places.take(j as int),
            l.limits@ == start.limits + Seq::new(j as nat, |j: int| (start.ids.len() + j) as u32),
            l.final_position == p,
            p <= offset,
        decreases n - j,
    {
        let ghost before = laid(*l);
        assert(j as int / nx as int <= j && j as int % nx as int <= j) by (nonlinear_arith)
            requires
                0 <= j,
                1 <= nx,
        ;
        let down: u32 = (j / nx) as u32;
        let across: u32 = (j % nx) as u32;
        l.ids.push(0);
        l.positions.push([p, p + down, p + across, 0]);
        l.limits.push((offset + j) as u32);
        proof {
            assert(l.ids@ =~= start.ids + Seq::new((j + 1) as nat, |j: int| 0u32));
            let row = l.positions[l.positions.len() - 1]@;
            assert(row =~= places[j as int]);
            assert(laid(*l).positions =~= before.positions.push(row));
            assert(places.take(j + 1) =~= places.take(j as int).push(places[j as int]));
            assert(laid(*l).positions =~= start.positions + places.take(j + 1));
            assert(l.limits@ =~= start.limits + Seq::new(
                (j + 1) as nat,
                |j: int| (start.ids.len() + j) as u32,
            ));
        }
        j = j + 1;
    }
    let side: usize = if nx >= ny { nx } else { ny };
    l.final_position = p + side as u32;
    let ghost held = l.keys@;
    l.keys.push(key);
    proof {
        assert(places.take(n as int) =~= places);
        assert(keys(l.keys@) =~= keys(held).push(view));
        let want = with_image(start, view);
        assert(laid(*l).positions =~= want.positions);
        assert(laid(*l).ids =~= want.ids);
        assert(laid(*l).limits =~= want.limits);
        assert forall|i: int| 0 <= i < l.keys.len() implies (#[trigger] l.keys[i])@.end() <= l.ids.len()
            && l.keys[i].wf() by {
            if i < held.len() {
                assert(l.keys[i] == held[i]);
            }
        }
    }
}

fn any_beyond(ids: &Vec<u32>, vocab: usize) -> (r: bool)
    ensures
        r == exists|i: int| 0 <= i < ids.len() && #[trigger] ids[i] >= vocab,
{
    let mut i: usize = 0;
    while i < ids.len()
        invariant
            i <= ids.len(),
            forall|j: int| 0 <= j < i ==> #[trigger] ids[j] < vocab,
        decreases ids.len() - i,
    {
        if ids[i] as usize >= vocab {
            return true;
        }
        i = i + 1;
    }
    false
}

/// `len == w * h * 3`, without leaving the machine's counters.
fn pixel_count(len: usize, w: usize, h: usize) -> (r: bool)
    ensures
        r == (len == w * h * 3),
{
    proof {
        assert(w * h >= 0) by (nonlinear_arith);
    }
    match w.checked_mul(h) {
        None => false,
        Some(n) => match n.checked_mul(3) {
            None => false,
            Some(m) => m == len,
        },
    }
}

fn lay_one(l: &mut Layout, chunk: Chunk, vocab: usize, context: usize) -> (r: Result<(), Fault>)
    requires
        growing(*old(l), context as int),
        context <= MAX_CONTEXT,
        chunk_sized(chunk),
    ensures
        growing(*final(l), context as int),
        match lay_chunk(laid(*old(l)), chunk, vocab, context) {
            Err(f) => r == Err::<(), Fault>(f),
            Ok(next) => r == Ok::<(), Fault>(()) && laid(*final(l)) == next,
        },
{
    match chunk {
        Chunk::Text(ids) => {
            if ids.len() > context - l.ids.len() || any_beyond(&ids, vocab) {
                return Err(Fault::PromptText);
            }
            lay_text(l, &ids, context);
            Ok(())
        },
        Chunk::Image { rgb, w, h, hash: fingerprint, size } => match size {
            None => Err(Fault::ImageSize),
            Some((tw, th)) => {
                if !pixel_count(rgb.len(), w, h) {
                    return Err(Fault::PixelCount);
                }
                let nx: usize = tw / 32;
                let ny: usize = th / 32;
                let offset: usize = l.ids.len();
                let room: usize = context - offset;
                let fits = match nx.checked_mul(ny) {
                    None => false,
                    Some(n) => n <= room,
                };
                if !fits {
                    return Err(Fault::ImageContext);
                }
                let digest = hash(&rgb);
                let key = ImageKey {
                    digest,
                    hash: fingerprint,
                    rgb: Arc::new(rgb),
                    w,
                    h,
                    offset,
                    nx,
                    ny,
                };
                lay_image(l, key, context);
                Ok(())
            },
        },
        Chunk::Other => Err(Fault::Unsupported),
    }
}

/// Lay a prompt out. Images keep their pixels, so that equal images are
/// encoded once.
pub fn layout(chunks: Vec<Chunk>, vocab: usize, context: usize) -> (r: Result<Layout, MetalError>)
    requires
        context <= MAX_CONTEXT,
        chunks_sized(chunks@),
    ensures
        match lay_prompt(chunks@, vocab, context) {
            Err(f) => r == Err::<Layout, MetalError>(MetalError::Model(f)),
            Ok(want) => {
                &&& r matches Ok(l)
                &&& laid(l) == want
                &&& l.images.len() == 0
                &&& l.wf()
                &&& l.ids.len() <= context
            },
        },
{
    let mut l = Layout {
        ids: Vec::new(),
        keys: Vec::new(),
        positions: Vec::new(),
        limits: Vec::new(),
        images: Vec::new(),
        final_position: 0,
    };
    let ghost all = chunks@;
    let total: usize = chunks.len();
    proof {
        assert(laid(l).keys =~= nothing_laid().keys);
        assert(laid(l).positions =~= nothing_laid().positions);
        assert(laid(l) == nothing_laid());
    }
    let mut rest: Vec<Chunk> = Vec::new();
    let mut source = chunks;
    while source.len() > 0
        invariant
            source.len() + rest.len() == all.len(),
            source@ == all.take(source.len() as int),
            forall|i: int| 0 <= i < rest.len() ==> #[trigger] rest[i] == all[all.len() - 1 - i],
        decreases source.len(),
    {
        let ghost n = source.len() as int;
        let c = source.pop().unwrap();
        assert(source@ =~= all.take(n - 1));
        rest.push(c);
    }
    let mut n: usize = 0;
    while rest.len() > 0
        invariant
            n + rest.len() == all.len(),
            total == all.len(),
            all == chunks@,
            context <= MAX_CONTEXT,
            chunks_sized(all),
            forall|i: int| 0 <= i < rest.len() ==> #[trigger] rest[i] == all[all.len() - 1 - i],
            growing(l, context as int),
            lay_chunks(all, n as int, vocab, context) == Ok::<Laid, Fault>(laid(l)),
        decreases rest.len(),
    {
        let ghost last = rest[rest.len() - 1];
        let c = rest.pop().unwrap();
        assert(c == all[n as int]);
        match lay_one(&mut l, c, vocab, context) {
            Err(f) => {
                proof {
                    lemma_refused(all, n + 1, all.len() as int, vocab, context, f);
                }
                return Err(MetalError::Model(f));
            },
            Ok(_) => {},
        }
        n = n + 1;
    }
    if l.keys.len() == 0 {
        return Err(MetalError::Model(Fault::NoImage));
    }
    Ok(l)
}

proof fn lemma_refused(chunks: Seq<Chunk>, m: int, n: int, vocab: usize, context: usize, f: Fault)
    requires
        0 < m <= n,
        lay_chunks(chunks, m, vocab, context) == Err::<Laid, Fault>(f),
    ensures
        lay_chunks(chunks, n, vocab, context) == Err::<Laid, Fault>(f),
    decreases n - m,
{
    if m < n {
        lemma_refused(chunks, m, n - 1, vocab, context, f);
    }
}

/// In a laid-out prompt every row attends up to itself: image rows stay
/// raster-causal in the decoder, whatever coordinates they share.
pub proof fn rows_attend_up_to_themselves(chunks: Seq<Chunk>, n: int, vocab: usize, context: usize)
    requires
        context <= MAX_CONTEXT,
        0 <= n <= chunks.len(),
    ensures
        lay_chunks(chunks, n, vocab, context) matches Ok(l) ==> {
            &&& l.limits.len() == l.ids.len()
            &&& l.positions.len() == l.ids.len()
            &&& l.ids.len() <= context
            &&& forall|r: int| 0 <= r < l.limits.len() ==> #[trigger] l.limits[r] == r
        },
    decreases n,
{
    if n > 0 {
        rows_attend_up_to_themselves(chunks, n - 1, vocab, context);
        match lay_chunks(chunks, n - 1, vocab, context) {
            Err(_) => {},
            Ok(before) => {
                match chunks[n - 1] {
                    Chunk::Image { rgb, w, h, hash, size: Some((tw, th)) } => {
                        assert((tw as int / 32) * (th as int / 32) >= 0) by (nonlinear_arith)
                            requires
                                tw as int / 32 >= 0,
                                th as int / 32 >= 0,
                        ;
                    },
                    _ => {},
                }
            },
        }
    }
}

} // verus!
