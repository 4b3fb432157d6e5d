//! The loaded graph and its scratch planes.
use vstd::prelude::*;
use crate::arith::ceil_div;
use crate::program::{Buffer, Weight};

verus! {

pub const WIDTH: usize = 2688;
pub const VOCAB: usize = 131072;
pub const INNER: usize = 4096;
pub const CONV: usize = 6144;
pub const PROJECTED: usize = 10304;
pub const STATE: usize = 524288;
pub const WINDOW: usize = 18432;
pub const FF: usize = 1856;
pub const SHARED: usize = 3712;
pub const CHUNK: usize = 512;
pub const SPLITS: usize = 16;

/// Bit pattern of the normalisation epsilon, one in a hundred thousand.
pub const EPS: u32 = 0x3727_c5ac;

/// What a block does.
#[derive(Clone, Copy, Debug, PartialEq, Eq, Structural)]
pub enum Block {
    Mamba,
    Attention,
    Moe,
}

#[derive(Clone, Copy, Debug, PartialEq, Eq, Structural)]
pub struct Mamba {
    pub input: Weight,
    pub output: Weight,
    pub conv_w: Weight,
    pub conv_b: Weight,
    pub a: Weight,
    pub d: Weight,
    pub dt: Weight,
    pub norm: Weight,
    /// One state per slot and one for the saved prefix.
    pub state: Buffer,
    pub window: Buffer,
}

#[derive(Clone, Copy, Debug, PartialEq, Eq, Structural)]
pub struct Attention {
    pub q: Weight,
    pub k: Weight,
    pub v: Weight,
    pub out: Weight,
    pub keys: Buffer,
    pub values: Buffer,
}

#[derive(Clone, Copy, Debug, PartialEq, Eq, Structural)]
pub struct Experts {
    pub router: Weight,
    pub bias: Weight,
    pub up: Weight,
    pub down: Weight,
    pub shared_up: Weight,
    pub shared_down: Weight,
}

#[derive(Clone, Copy, Debug, PartialEq, Eq, Structural)]
pub enum Mixer {
    Mamba(Mamba),
    Attention(Attention),
    Moe(Experts),
}

#[derive(Clone, Copy, Debug, PartialEq, Eq, Structural)]
pub struct Layer {
    pub norm: Weight,
    pub mixer: Mixer,
}

#[derive(Clone, Copy, Debug, PartialEq, Eq, Structural)]
pub struct Scratch {
    pub ids: Buffer,
    pub meta: Buffer,
    pub pages: Buffer,
    pub output_rows: Buffer,
    pub decode_rows: Buffer,
    pub attention_tiles: Buffer,
    pub sequences: Buffer,
    pub ssd_tiles: Buffer,
    pub x: Buffer,
    pub norm: Buffer,
    pub delta: Buffer,
    pub proj: Buffer,
    pub conv: Buffer,
    pub y: Buffer,
    pub yn: Buffer,
    pub dt: Buffer,
    pub decay: Buffer,
    pub matrix: Buffer,
    pub state_delta: Buffer,
    pub state_in: Buffer,
    pub q: Buffer,
    pub k: Buffer,
    pub v: Buffer,
    pub attention: Buffer,
    pub parts: Buffer,
    pub router: Buffer,
    pub picks: Buffer,
    pub probabilities: Buffer,
    pub lists: Buffer,
    pub counts: Buffer,
    pub tiles: Buffer,
    pub up: Buffer,
    pub expert_out: Buffer,
    pub shared: Buffer,
    pub logits: Buffer,
}

/// Tiles that one tick can need: those of a full chunk and one ragged end per
/// slot.
pub open spec fn tile_bound(batch: int) -> int {
    16 + batch
}

/// Bytes of the scratch planes, in the order of the fields.
pub open spec fn scratch_sizes(batch: int, pages: int) -> Seq<int> {
    let tiles = tile_bound(batch);
    seq![
        512int,
        512int * 2,
        batch * pages,
        512int,
        512int,
        512int * 2,
        batch * 4,
        tiles * 4,
        512int * 2688,
        512int * 2688,
        512int * 2688,
        512int * 10304,
        512int * 6144,
        512int * 4096,
        512int * 4096,
        512int * 64,
        tiles * 64 * 32,
        tiles * 64 * 32 * 32,
        tiles * 524288,
        tiles * 524288,
        512int * 4096,
        512int * 256,
        512int * 256,
        512int * 4096,
        512int * 32 * 16 * 130,
        512int * 128,
        512int * 6,
        512int * 6,
        128int * 512 * 6,
        128int,
        1int + 2 * (192 + 128),
        512int * 6 * 1856,
        512int * 6 * 2688,
        512int * 3712,
        batch * 131072,
    ].map_values(|n: int| n * 4)
}

impl Scratch {
    pub fn sizes(batch: usize, pages: usize) -> (r: [usize; 35])
        requires
            batch <= 64,
            pages <= 2048,
        ensures
            forall|i: int| 0 <= i < 35 ==> #[trigger] r[i] == scratch_sizes(
                batch as int,
                pages as int,
            )[i],
    {
        let tiles: usize = 16 + batch;
        proof {
            crate::arith::lemma_product_bound(batch as int, pages as int, 64, 2048);
        }
        let table: usize = batch * pages;
        [
            CHUNK * 4,
            CHUNK * 2 * 4,
            table * 4,
            CHUNK * 4,
            CHUNK * 4,
            CHUNK * 2 * 4,
            batch * 4 * 4,
            tiles * 4 * 4,
            CHUNK * WIDTH * 4,
            CHUNK * WIDTH * 4,
            CHUNK * WIDTH * 4,
            CHUNK * PROJECTED * 4,
            CHUNK * CONV * 4,
            CHUNK * INNER * 4,
            CHUNK * INNER * 4,
            CHUNK * 64 * 4,
            tiles * 64 * 32 * 4,
            tiles * 64 * 32 * 32 * 4,
            tiles * STATE * 4,
            tiles * STATE * 4,
            CHUNK * 4096 * 4,
            CHUNK * 256 * 4,
            CHUNK * 256 * 4,
            CHUNK * 4096 * 4,
            CHUNK * 32 * SPLITS * 130 * 4,
            CHUNK * 128 * 4,
            CHUNK * 6 * 4,
            CHUNK * 6 * 4,
            128 * CHUNK * 6 * 4,
            128 * 4,
            (1 + 2 * (192 + 128)) * 4,
            CHUNK * 6 * FF * 4,
            CHUNK * 6 * WIDTH * 4,
            CHUNK * SHARED * 4,
            batch * VOCAB * 4,
        ]
    }

    pub open spec fn planes(self) -> Seq<Buffer> {
        seq![
            self.ids,
            self.meta,
            self.pages,
            self.output_rows,
            self.decode_rows,
            self.attention_tiles,
            self.sequences,
            self.ssd_tiles,
            self.x,
            self.norm,
            self.delta,
            self.proj,
            self.conv,
            self.y,
            self.yn,
            self.dt,
            self.decay,
            self.matrix,
            self.state_delta,
            self.state_in,
            self.q,
            self.k,
            self.v,
            self.attention,
            self.parts,
            self.router,
            self.picks,
            self.probabilities,
            self.lists,
            self.counts,
            self.tiles,
            self.up,
            self.expert_out,
            self.shared,
            self.logits,
        ]
    }

    /// The planes as consecutive allocations from `first`.
    pub fn new(first: u32, batch: usize, pages: usize) -> (r: Self)
        requires
            batch <= 64,
            pages <= 2048,
            first <= u32::MAX - 35,
        ensures
            r.planes() == Seq::new(
                35,
                |i: int| Buffer {
                    id: (first + i) as u32,
                    len: scratch_sizes(batch as int, pages as int)[i] as u64,
                },
            ),
    {
        let s = Self::sizes(batch, pages);
        let r = Scratch {
            ids: Buffer { id: first, len: s[0] as u64 },
            meta: Buffer { id: first + 1, len: s[1] as u64 },
            pages: Buffer { id: first + 2, len: s[2] as u64 },
            output_rows: Buffer { id: first + 3, len: s[3] as u64 },
            decode_rows: Buffer { id: first + 4, len: s[4] as u64 },
            attention_tiles: Buffer { id: first + 5, len: s[5] as u64 },
            sequences: Buffer { id: first + 6, len: s[6] as u64 },
            ssd_tiles: Buffer { id: first + 7, len: s[7] as u64 },
            x: Buffer { id: first + 8, len: s[8] as u64 },
            norm: Buffer { id: first + 9, len: s[9] as u64 },
            delta: Buffer { id: first + 10, len: s[10] as u64 },
            proj: Buffer { id: first + 11, len: s[11] as u64 },
            conv: Buffer { id: first + 12, len: s[12] as u64 },
            y: Buffer { id: first + 13, len: s[13] as u64 },
            yn: Buffer { id: first + 14, len: s[14] as u64 },
            dt: Buffer { id: first + 15, len: s[15] as u64 },
            decay: Buffer { id: first + 16, len: s[16] as u64 },
            matrix: Buffer { id: first + 17, len: s[17] as u64 },
            state_delta: Buffer { id: first + 18, len: s[18] as u64 },
            state_in: Buffer { id: first + 19, len: s[19] as u64 },
            q: Buffer { id: first + 20, len: s[20] as u64 },
            k: Buffer { id: first + 21, len: s[21] as u64 },
            v: Buffer { id: first + 22, len: s[22] as u64 },
            attention: Buffer { id: first + 23, len: s[23] as u64 },
            parts: Buffer { id: first + 24, len: s[24] as u64 },
            router: Buffer { id: first + 25, len: s[25] as u64 },
            picks: Buffer { id: first + 26, len: s[26] as u64 },
            probabilities: Buffer { id: first + 27, len: s[27] as u64 },
            lists: Buffer { id: first + 28, len: s[28] as u64 },
            counts: Buffer { id: first + 29, len: s[29] as u64 },
            tiles: Buffer { id: first + 30, len: s[30] as u64 },
            up: Buffer { id: first + 31, len: s[31] as u64 },
            expert_out: Buffer { id: first + 32, len: s[32] as u64 },
            shared: Buffer { id: first + 33, len: s[33] as u64 },
            logits: Buffer { id: first + 34, len: s[34] as u64 },
        };
        assert(r.planes() =~= Seq::new(
            35,
            |i: int| Buffer {
                id: (first + i) as u32,
                len: scratch_sizes(batch as int, pages as int)[i] as u64,
            },
        ));
        r
    }
}

/// One live sequence, or the saved prefix.
#[derive(Debug)]
pub struct Slot {
    pub blocks: Vec<u32>,
    pub history: Vec<u32>,
    pub reused: usize,
}

/// A prompt in progress.
#[derive(Debug)]
pub struct Pending {
    pub slot: usize,
    pub tokens: Vec<u32>,
    pub offset: usize,
    pub work: usize,
}

impl Pending {
    /// Some of the prompt is still to run.
    pub open spec fn wf(&self, slots: int, context: usize) -> bool {
        &&& self.slot < slots
        &&& self.offset < self.tokens.len() <= context
    }
}

#[derive(Debug)]
pub struct Nemotron {
    pub embedding: Weight,
    pub head: Weight,
    pub output_norm: Weight,
    pub layers: Vec<Layer>,
    pub scratch: Scratch,
    pub slots: Vec<Slot>,
    pub pending: Vec<Pending>,
    /// One saved prefix; pages and recurrent state are published together.
    pub prefix: Slot,
    pub context: usize,
    pub page_stride: usize,
    pub weight_bytes: u64,
    pub cache_bytes: u64,
}

/// Eight-bit planes of a layer that the precise projections read.
pub open spec fn projected_type(w: Weight) -> bool {
    w.ty == 8
}

pub open spec fn layer_wf(l: Layer) -> bool {
    match l.mixer {
        Mixer::Mamba(m) => projected_type(m.input) && projected_type(m.output),
        Mixer::Attention(a) => projected_type(a.q) && projected_type(a.k) && projected_type(a.v)
            && projected_type(a.out),
        Mixer::Moe(e) => projected_type(e.shared_up) && projected_type(e.shared_down),
    }
}

impl Nemotron {
    /// What loading establishes and every tick keeps.
    pub open spec fn wf(&self) -> bool {
        &&& 0 < self.slots.len() <= 64
        &&& 0 < self.context <= 32768
        &&& self.page_stride == ceil_div(self.context as int, 16)
        &&& projected_type(self.head)
        &&& forall|i: int| 0 <= i < self.layers.len() ==> layer_wf(#[trigger] self.layers[i])
        &&& forall|i: int|
            0 <= i < self.slots.len() ==> {
                &&& (#[trigger] self.slots[i]).history.len() <= self.context
                &&& self.slots[i].blocks.len() <= self.page_stride
            }
        &&& self.prefix.history.len() <= self.context
        &&& self.prefix.blocks.len() <= self.page_stride
        &&& forall|i: int|
            0 <= i < self.pending.len() ==> (#[trigger] self.pending[i]).wf(
                self.slots.len() as int,
                self.context,
            )
    }
}

} // verus!
