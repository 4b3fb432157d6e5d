//! The loaded decoder, its scratch planes and its sequences.
use vstd::prelude::*;
use crate::arith::lemma_product_bound;
use crate::program::{Buffer, Weight};

verus! {

pub const CHUNK: usize = 512;
pub const SPLITS: usize = 16;
pub const WIDTH: usize = 1024;
pub const KVWIDTH: usize = 256;
pub const QWIDTH: usize = 2048;
pub const FF: usize = 3072;
pub const VOCAB: usize = 103424;
pub const IMAGE: u32 = 100295;
pub const LAYERS: usize = 18;

#[derive(Clone, Copy, Debug, PartialEq, Eq, Structural)]
pub struct Layer {
    pub norm: Weight,
    pub q: Weight,
    pub k: Weight,
    pub v: Weight,
    pub o: Weight,
    pub post: Weight,
    pub gate: Weight,
    pub up: Weight,
    pub down: Weight,
    pub keys: Buffer,
    pub values: Buffer,
}

#[derive(Clone, Copy, Debug, PartialEq, Eq, Structural)]
pub struct Scratch {
    pub ids: Buffer,
    pub meta: Buffer,
    pub rope: Buffer,
    pub pages: Buffer,
    pub output_rows: Buffer,
    pub decode_rows: Buffer,
    pub tiles: Buffer,
    pub x: Buffer,
    pub norm: Buffer,
    pub q: Buffer,
    pub k: Buffer,
    pub v: Buffer,
    pub attn: Buffer,
    pub parts: Buffer,
    pub delta: Buffer,
    pub gate: Buffer,
    pub up: Buffer,
    pub logits: Buffer,
}

/// Words of the scratch planes, in the order of the fields.
pub open spec fn scratch_words(stride: int, batch: int) -> Seq<int> {
    seq![
        512int,
        512int * 2,
        512int * 4,
        stride * batch,
        batch,
        512int,
        512int * 2,
        512int * 1024,
        512int * 1024,
        512int * 2048,
        512int * 256,
        512int * 256,
        512int * 2048,
        512int * 16 * 16 * 130,
        512int * 1024,
        512int * 3072,
        512int * 3072,
        batch * 103424,
    ]
}

pub open spec fn sum(s: Seq<int>) -> int
    decreases s.len(),
{
    if s.len() == 0 {
        0
    } else {
        sum(s.drop_last()) + s.last()
    }
}

impl Scratch {
    pub fn sizes(stride: usize, batch: usize) -> (r: [usize; 18])
        requires
            stride <= 2048,
            batch <= 16,
        ensures
            forall|i: int| 0 <= i < 18 ==> #[trigger] r[i] == scratch_words(
                stride as int,
                batch as int,
            )[i],
    {
        proof {
            lemma_product_bound(stride as int, batch as int, 2048, 16);
        }
        [
            CHUNK,
            CHUNK * 2,
            CHUNK * 4,
            stride * batch,
            batch,
            CHUNK,
            CHUNK * 2,
            CHUNK * WIDTH,
            CHUNK * WIDTH,
            CHUNK * QWIDTH,
            CHUNK * KVWIDTH,
            CHUNK * KVWIDTH,
            CHUNK * QWIDTH,
            CHUNK * 16 * SPLITS * 130,
            CHUNK * WIDTH,
            CHUNK * FF,
            CHUNK * FF,
            batch * VOCAB,
        ]
    }

    /// Bytes of all scratch planes.
    pub fn bytes(stride: usize, batch: usize) -> (r: usize)
        requires
            stride <= 2048,
            batch <= 16,
        ensures
            r == sum(scratch_words(stride as int, batch as int)) * 4,
            r <= 0x4000_0000,
    {
        let s = Self::sizes(stride, batch);
        let ghost want = scratch_words(stride as int, batch as int);
        let mut total: usize = 0;
        let mut i: usize = 0;
        proof {
            lemma_product_bound(stride as int, batch as int, 2048, 16);
            lemma_total(stride as int, batch as int);
            assert(want.take(0) =~= Seq::<int>::empty());
            assert(want.len() == 18);
        }
        while i < 18
            invariant
                i <= 18,
                want == scratch_words(stride as int, batch as int),
                want.len() == 18,
                0 <= stride * batch,
                sum(want) <= 0x1000_0000,
                forall|i: int| 0 <= i < 18 ==> #[trigger] s[i] == want[i],
                total == sum(want.take(i as int)),
            decreases 18 - i,
        {
            proof {
                assert(want.take(i + 1).drop_last() =~= want.take(i as int));
                assert(want.take(i + 1).last() == want[i as int]);
                assert(s[i as int] == want[i as int]);
                lemma_sum_grows(want, i + 1);
            }
            total = total + s[i];
            i = i + 1;
        }
        assert(want.take(18) =~= want);
        total * 4
    }

    pub open spec fn planes(self) -> Seq<Buffer> {
        seq![
            self.ids,
            self.meta,
            self.rope,
            self.pages,
            self.output_rows,
            self.decode_rows,
            self.tiles,
            self.x,
            self.norm,
            self.q,
            self.k,
            self.v,
            self.attn,
            self.parts,
            self.delta,
            self.gate,
            self.up,
            self.logits,
        ]
    }

    /// The planes as consecutive allocations from `first`.
    pub fn new(first: u32, stride: usize, batch: usize) -> (r: Self)
        requires
            stride <= 2048,
            batch <= 16,
            first <= u32::MAX - 18,
        ensures
            r.planes() == Seq::new(
                18,
                |i: int| Buffer {
                    id: (first + i) as u32,
                    len: (scratch_words(stride as int, batch as int)[i] * 4) as u64,
                },
            ),
    {
        let s = Self::sizes(stride, batch);
        proof {
            lemma_product_bound(stride as int, batch as int, 2048, 16);
            assert forall|i: int| 0 <= i < 18 implies #[trigger] s[i] <= 0x1000_0000 by {
                assert(s[i] == scratch_words(stride as int, batch as int)[i]);
            }
        }
        let r = Scratch {
            ids: Buffer { id: first, len: s[0] as u64 * 4 },
            meta: Buffer { id: first + 1, len: s[1] as u64 * 4 },
            rope: Buffer { id: first + 2, len: s[2] as u64 * 4 },
            pages: Buffer { id: first + 3, len: s[3] as u64 * 4 },
            output_rows: Buffer { id: first + 4, len: s[4] as u64 * 4 },
            decode_rows: Buffer { id: first + 5, len: s[5] as u64 * 4 },
            tiles: Buffer { id: first + 6, len: s[6] as u64 * 4 },
            x: Buffer { id: first + 7, len: s[7] as u64 * 4 },
            norm: Buffer { id: first + 8, len: s[8] as u64 * 4 },
            q: Buffer { id: first + 9, len: s[9] as u64 * 4 },
            k: Buffer { id: first + 10, len: s[10] as u64 * 4 },
            v: Buffer { id: first + 11, len: s[11] as u64 * 4 },
            attn: Buffer { id: first + 12, len: s[12] as u64 * 4 },
            parts: Buffer { id: first + 13, len: s[13] as u64 * 4 },
            delta: Buffer { id: first + 14, len: s[14] as u64 * 4 },
            gate: Buffer { id: first + 15, len: s[15] as u64 * 4 },
            up: Buffer { id: first + 16, len: s[16] as u64 * 4 },
            logits: Buffer { id: first + 17, len: s[17] as u64 * 4 },
        };
        assert(r.planes() =~= Seq::new(
            18,
            |i: int| Buffer {
                id: (first + i) as u32,
                len: (scratch_words(stride as int, batch as int)[i] * 4) as u64,
            },
        ));
        r
    }
}

proof fn lemma_total(stride: int, batch: int)
    requires
        0 <= stride <= 2048,
        0 <= batch <= 16,
    ensures
        sum(scratch_words(stride, batch)) == 24122368 + stride * batch + 103425 * batch,
        sum(scratch_words(stride, batch)) <= 0x1000_0000,
{
    lemma_product_bound(stride, batch, 2048, 16);
    let s = scratch_words(stride, batch);
    reveal_with_fuel(sum, 19);
    assert(s.drop_last().drop_last().drop_last().drop_last().drop_last().drop_last().len() == 12);
}

proof fn lemma_sum_grows(s: Seq<int>, n: int)
    requires
        0 <= n <= s.len(),
        forall|i: int| 0 <= i < s.len() ==> 0 <= #[trigger] s[i],
    ensures
        sum(s.take(n)) <= sum(s),
    decreases s.len() - n,
{
    if n < s.len() {
        lemma_sum_grows(s, n + 1);
        assert(s.take(n + 1).drop_last() =~= s.take(n));
        assert(s.take(n + 1).last() == s[n]);
    } else {
        assert(s.take(n) =~= s);
    }
}

/// Device rows of one image and where they go.
#[derive(Clone, Copy, Debug, PartialEq, Eq, Structural)]
pub struct Image {
    pub offset: usize,
    pub tokens: usize,
    pub embd: Buffer,
}

/// Rotary coordinates and images of a multimodal prompt.
#[derive(Debug)]
pub struct Layout {
    pub positions: Vec<[u32; 4]>,
    pub next: u32,
    pub images: Vec<Image>,
}

/// Three equal coordinates.
pub open spec fn level(n: int) -> Seq<u32> {
    seq![n as u32, n as u32, n as u32, 0u32]
}

impl Layout {
    /// Coordinates of row `pos`; past the prompt they run on from `next`.
    pub open spec fn position_of(&self, pos: int) -> Seq<u32> {
        if pos < self.positions.len() {
            self.positions[pos]@
        } else {
            level(self.next + (pos - self.positions.len()))
        }
    }

    pub fn position(&self, pos: usize) -> (r: [u32; 4])
        requires
            pos >= self.positions.len() ==> self.next + (pos - self.positions.len()) <= u32::MAX,
        ensures
            r@ == self.position_of(pos as int),
    {
        if pos < self.positions.len() {
            self.positions[pos]
        } else {
            let n: u32 = self.next + (pos - self.positions.len()) as u32;
            let r = [n, n, n, 0];
            assert(r@ =~= level(n as int));
            r
        }
    }
}

/// One live sequence.
#[derive(Debug)]
pub struct Slot {
    pub blocks: Vec<u32>,
    pub history: Vec<u32>,
    pub reused: usize,
    pub mm: Option<Layout>,
}

/// A prompt in progress.
#[derive(Debug)]
pub struct Pending {
    pub slot: usize,
    pub tokens: Vec<u32>,
    pub offset: usize,
    pub work: usize,
}

} // verus!
