//! The vision tower as it is loaded.
use vstd::prelude::*;
use crate::error::{Fault, MetalError};
use crate::header::{
    based, decimal, decimal_text, expect, expected, first_unmet, is_named, placed, resident_bytes, schema,
    Entry, Expected, Header,
};
use crate::program::{list1, list2, list4, Buffer, Weight};

verus! {

pub const E: usize = 1152;
pub const F: usize = 4304;
pub const DEPTH: usize = 27;

/// Patches of one wave.
pub const MAX_PATCHES: usize = 16384;

/// Tensors of the tower.
pub const TENSORS: usize = 443;

#[derive(Clone, Copy, Debug, PartialEq, Eq, Structural)]
pub struct Norm {
    pub w: Weight,
    pub b: Weight,
}

#[derive(Clone, Copy, Debug, PartialEq, Eq, Structural)]
pub struct Linear {
    pub w: Weight,
    pub b: Weight,
}

#[derive(Clone, Copy, Debug, PartialEq, Eq, Structural)]
pub struct Block {
    pub ln1: Norm,
    pub ln2: Norm,
    pub q: Linear,
    pub k: Linear,
    pub v: Linear,
    pub o: Linear,
    pub up: Linear,
    pub down: Linear,
}

#[derive(Debug)]
pub struct Vision {
    pub patch: Linear,
    pub pos: Weight,
    pub blocks: Vec<Block>,
    pub post: Norm,
    pub pre: Norm,
    pub up: Linear,
    pub down: Linear,
}

/// A tensor of tower block `i`.
pub open spec fn tower_name(i: int, name: Seq<char>) -> Seq<char> {
    "v.blk."@ + decimal(i as nat) + "."@ + name
}

fn tower_text(i: usize, name: &str) -> (r: String)
    ensures
        r@ == tower_name(i as int, name@),
{
    let mut s = "v.blk.".to_owned();
    let number = decimal_text(i as u64);
    s.append(number.as_str());
    s.append(".");
    s.append(name);
    s
}

pub open spec fn plane(p: Seq<Expected>, weight: Seq<char>, bias: Seq<char>, k: u64, n: u64) -> Seq<Expected> {
    p.push(expected(weight, seq![k, n], 30, true)).push(expected(bias, seq![n], 0, true))
}

pub open spec fn norm(p: Seq<Expected>, weight: Seq<char>, bias: Seq<char>) -> Seq<Expected> {
    p.push(expected(weight, seq![1152u64], 0, true)).push(expected(bias, seq![1152u64], 0, true))
}

/// The sixteen tensors of block `i`.
pub open spec fn push_block(p: Seq<Expected>, i: int) -> Seq<Expected> {
    let p = norm(p, tower_name(i, "ln1.weight"@), tower_name(i, "ln1.bias"@));
    let p = norm(p, tower_name(i, "ln2.weight"@), tower_name(i, "ln2.bias"@));
    let p = plane(p, tower_name(i, "attn_q.weight"@), tower_name(i, "attn_q.bias"@), 1152, 1152);
    let p = plane(p, tower_name(i, "attn_k.weight"@), tower_name(i, "attn_k.bias"@), 1152, 1152);
    let p = plane(p, tower_name(i, "attn_v.weight"@), tower_name(i, "attn_v.bias"@), 1152, 1152);
    let p = plane(p, tower_name(i, "attn_out.weight"@), tower_name(i, "attn_out.bias"@), 1152, 1152);
    let p = plane(p, tower_name(i, "ffn_up.weight"@), tower_name(i, "ffn_up.bias"@), 1152, 4304);
    plane(p, tower_name(i, "ffn_down.weight"@), tower_name(i, "ffn_down.bias"@), 4304, 1152)
}

/// The patch planes and the first `n` blocks.
pub open spec fn blocks_schema(n: int) -> Seq<Expected>
    decreases n,
{
    if n <= 0 {
        seq![
            expected("v.patch_embd.weight"@, seq![14u64, 14, 3, 1152], 0, true),
            expected("v.patch_embd.bias"@, seq![1152u64], 0, true),
            expected("v.position_embd.weight"@, seq![1152u64, 729], 0, true),
        ]
    } else {
        push_block(blocks_schema(n - 1), n - 1)
    }
}

/// Every tensor of the tower.
pub open spec fn tower_schema() -> Seq<Expected> {
    let p = blocks_schema(27);
    let p = norm(p, "v.post_ln.weight"@, "v.post_ln.bias"@);
    let p = norm(p, "mm.input_norm.weight"@, "mm.input_norm.bias"@);
    let p = plane(p, "mm.1.weight"@, "mm.1.bias"@, 4608, 4608);
    plane(p, "mm.2.weight"@, "mm.2.bias"@, 4608, 1024)
}

proof fn lemma_blocks_len(n: int)
    requires
        0 <= n,
    ensures
        blocks_schema(n).len() == 3 + 16 * n,
        forall|j: int| 0 <= j < blocks_schema(n).len() ==> 0 < (#[trigger] blocks_schema(n)[j]).dims.len(),
    decreases n,
{
    if n > 0 {
        lemma_blocks_len(n - 1);
    }
}

fn expect_plane(list: &mut Vec<Entry>, weight: String, bias: String, k: u64, n: u64)
    ensures
        schema(final(list)@) == plane(schema(old(list)@), weight@, bias@, k, n),
{
    expect(list, weight, list2(k, n), 30, true);
    expect(list, bias, list1(n), 0, true);
}

fn expect_norm(list: &mut Vec<Entry>, weight: String, bias: String)
    ensures
        schema(final(list)@) == norm(schema(old(list)@), weight@, bias@),
{
    expect(list, weight, list1(1152), 0, true);
    expect(list, bias, list1(1152), 0, true);
}

fn expect_block(list: &mut Vec<Entry>, i: usize)
    ensures
        schema(final(list)@) == push_block(schema(old(list)@), i as int),
{
    expect_norm(list, tower_text(i, "ln1.weight"), tower_text(i, "ln1.bias"));
    expect_norm(list, tower_text(i, "ln2.weight"), tower_text(i, "ln2.bias"));
    expect_plane(list, tower_text(i, "attn_q.weight"), tower_text(i, "attn_q.bias"), 1152, 1152);
    expect_plane(list, tower_text(i, "attn_k.weight"), tower_text(i, "attn_k.bias"), 1152, 1152);
    expect_plane(list, tower_text(i, "attn_v.weight"), tower_text(i, "attn_v.bias"), 1152, 1152);
    expect_plane(list, tower_text(i, "attn_out.weight"), tower_text(i, "attn_out.bias"), 1152, 1152);
    expect_plane(list, tower_text(i, "ffn_up.weight"), tower_text(i, "ffn_up.bias"), 1152, 4304);
    expect_plane(list, tower_text(i, "ffn_down.weight"), tower_text(i, "ffn_down.bias"), 4304, 1152);
}

/// The schema, which also gives the order of upload.
pub fn build_schema() -> (list: Vec<Entry>)
    ensures
        schema(list@) == tower_schema(),
{
    let mut list: Vec<Entry> = Vec::new();
    expect(&mut list, "v.patch_embd.weight".to_owned(), list4(14, 14, 3, 1152), 0, true);
    expect(&mut list, "v.patch_embd.bias".to_owned(), list1(1152), 0, true);
    expect(&mut list, "v.position_embd.weight".to_owned(), list2(1152, 729), 0, true);
    assert(schema(list@) =~= blocks_schema(0));
    let mut i: usize = 0;
    while i < DEPTH
        invariant
            i <= DEPTH,
            schema(list@) == blocks_schema(i as int),
        decreases DEPTH - i,
    {
        expect_block(&mut list, i);
        i = i + 1;
    }
    expect_norm(&mut list, "v.post_ln.weight".to_owned(), "v.post_ln.bias".to_owned());
    expect_norm(&mut list, "mm.input_norm.weight".to_owned(), "mm.input_norm.bias".to_owned());
    expect_plane(&mut list, "mm.1.weight".to_owned(), "mm.1.bias".to_owned(), 4608, 4608);
    expect_plane(&mut list, "mm.2.weight".to_owned(), "mm.2.bias".to_owned(), 4608, 1024);
    list
}

/// The numbers that the tower's metadata must give.
pub open spec fn field_fault(h: &Header) -> Option<usize> {
    if h.unsigned("clip.vision.embedding_length"@) != Some(1152u64) {
        Some(0)
    } else if h.unsigned("clip.vision.feed_forward_length"@) != Some(4304u64) {
        Some(1)
    } else if h.unsigned("clip.vision.block_count"@) != Some(27u64) {
        Some(2)
    } else if h.unsigned("clip.vision.attention.head_count"@) != Some(16u64) {
        Some(3)
    } else if h.unsigned("clip.vision.patch_size"@) != Some(14u64) {
        Some(4)
    } else if h.unsigned("clip.vision.projection_dim"@) != Some(1024u64) {
        Some(5)
    } else if h.unsigned("clip.vision.image_min_pixels"@) != Some(112896u64) {
        Some(6)
    } else if h.unsigned("clip.vision.image_max_pixels"@) != Some(1003520u64) {
        Some(7)
    } else if h.single("clip.vision.attention.layer_norm_epsilon"@) != Some(0x3586_37bdu32) {
        Some(8)
    } else if h.reals("clip.vision.image_mean"@) != Some(Seq::new(3, |i: int| Some(0x3f00_0000u32))) {
        Some(9)
    } else if h.reals("clip.vision.image_std"@) != Some(Seq::new(3, |i: int| Some(0x3f00_0000u32))) {
        Some(10)
    } else {
        None
    }
}

pub open spec fn companion(h: &Header) -> bool {
    &&& h.architecture matches Some(a) && a@ == "clip"@
    &&& h.text("clip.projector_type"@) == Some("paddleocr"@)
    &&& h.flag("clip.has_vision_encoder"@) == Some(true)
    &&& h.flag("clip.use_gelu"@) == Some(true)
}

/// The largest wave: slabs, staging, coefficient tables, original and
/// intermediate pixels, and image rows that stay resident.
pub open spec fn workspace_bytes() -> int {
    2860253184
}

/// Why a tower is refused, in the order in which it is looked at.
pub open spec fn tower_fault(h: &Header, allocated: u64, budget: u64) -> Option<MetalError> {
    let want = tower_schema();
    if !companion(h) {
        Some(MetalError::Model(Fault::Companion))
    } else if field_fault(h) is Some {
        Some(MetalError::Model(Fault::Field { index: field_fault(h)->0 }))
    } else if h.tensors.len() != want.len() {
        Some(MetalError::Model(Fault::Inventory))
    } else if first_unmet(h, want, 0) is Some {
        Some(MetalError::Model(Fault::Tensor { index: (first_unmet(h, want, 0)->0) as usize }))
    } else if allocated + resident_bytes(h, want, want.len() as int) + workspace_bytes() > budget {
        Some(MetalError::Memory(Fault::Budget))
    } else {
        None
    }
}

pub open spec fn tower_weight(h: &Header, first: u32, j: int) -> Weight {
    based(placed(h, tower_schema(), j), first)
}

pub open spec fn norm_of(h: &Header, first: u32, j: int) -> Norm {
    Norm { w: tower_weight(h, first, j), b: tower_weight(h, first, j + 1) }
}

pub open spec fn linear_of(h: &Header, first: u32, j: int) -> Linear {
    Linear { w: tower_weight(h, first, j), b: tower_weight(h, first, j + 1) }
}

pub open spec fn block_of(h: &Header, first: u32, i: int) -> Block {
    let c = 3 + 16 * i;
    Block {
        ln1: norm_of(h, first, c),
        ln2: norm_of(h, first, c + 2),
        q: linear_of(h, first, c + 4),
        k: linear_of(h, first, c + 6),
        v: linear_of(h, first, c + 8),
        o: linear_of(h, first, c + 10),
        up: linear_of(h, first, c + 12),
        down: linear_of(h, first, c + 14),
    }
}

/// The tower that a sound companion gives. The patch plane is read as a
/// matrix over whole patches.
pub open spec fn tower_loaded(h: &Header, first: u32, v: Vision) -> bool {
    &&& v.patch == (Linear {
        w: Weight { k: 588, n: 1152, ..tower_weight(h, first, 0) },
        b: tower_weight(h, first, 1),
    })
    &&& v.pos == tower_weight(h, first, 2)
    &&& v.blocks.len() == 27
    &&& forall|i: int| 0 <= i < 27 ==> #[trigger] v.blocks[i] == block_of(h, first, i)
    &&& v.post == norm_of(h, first, 435)
    &&& v.pre == norm_of(h, first, 437)
    &&& v.up == linear_of(h, first, 439)
    &&& v.down == linear_of(h, first, 441)
}

impl Vision {
    pub open spec fn wf(&self) -> bool {
        self.blocks.len() == 27
    }

    pub fn workspace_bound() -> (r: u64)
        ensures
            r == workspace_bytes(),
    {
        let patches: u64 = MAX_PATCHES as u64;
        patches * (6 * 1152 * 4 + 3 * 1280 * 2 + 4304 * 4 + 588 * 2 + 8 + 16 + 1024 * 2) + 2 * 16384
            * 16384 * 3 + 64 * 1024 * 1024 + 16 * (patches / 4) * 1024 * 4
    }

    fn check_fields(h: &Header) -> (r: Option<usize>)
        ensures
            r == field_fault(h),
    {
        if h.get_unsigned("clip.vision.embedding_length") != Some(1152u64) {
            return Some(0);
        }
        if h.get_unsigned("clip.vision.feed_forward_length") != Some(4304u64) {
            return Some(1);
        }
        if h.get_unsigned("clip.vision.block_count") != Some(27u64) {
            return Some(2);
        }
        if h.get_unsigned("clip.vision.attention.head_count") != Some(16u64) {
            return Some(3);
        }
        if h.get_unsigned("clip.vision.patch_size") != Some(14u64) {
            return Some(4);
        }
        if h.get_unsigned("clip.vision.projection_dim") != Some(1024u64) {
            return Some(5);
        }
        if h.get_unsigned("clip.vision.image_min_pixels") != Some(112896u64) {
            return Some(6);
        }
        if h.get_unsigned("clip.vision.image_max_pixels") != Some(1003520u64) {
            return Some(7);
        }
        if h.get_single("clip.vision.attention.layer_norm_epsilon") != Some(0x3586_37bdu32) {
            return Some(8);
        }
        if !h.reals_are("clip.vision.image_mean", 3, 0x3f00_0000) {
            return Some(9);
        }
        if !h.reals_are("clip.vision.image_std", 3, 0x3f00_0000) {
            return Some(10);
        }
        None
    }

    /// Accept exactly the elected companion. Metadata, every tensor and the
    /// largest wave are checked before anything is uploaded; its tensors are
    /// the allocations from `first` on.
    pub fn load(header: &Header, allocated: u64, budget: u64, first: u32) -> (r: Result<
        (Self, u64),
        MetalError,
    >)
        requires
            first <= 0x7fff_ffff,
        ensures
            match tower_fault(header, allocated, budget) {
                Some(e) => r == Err::<(Self, u64), MetalError>(e),
                None => {
                    &&& r matches Ok((v, bytes))
                    &&& v.wf()
                    &&& tower_loaded(header, first, v)
                    &&& bytes == resident_bytes(header, tower_schema(), tower_schema().len() as int)
                },
            },
    {
        let named = match &header.architecture {
            Some(a) => is_named(a, "clip"),
            None => false,
        };
        if !named || !header.text_is("clip.projector_type", "paddleocr") || header.get_flag(
            "clip.has_vision_encoder",
        ) != Some(true) || header.get_flag("clip.use_gelu") != Some(true) {
            return Err(MetalError::Model(Fault::Companion));
        }
        if let Some(index) = Self::check_fields(header) {
            return Err(MetalError::Model(Fault::Field { index }));
        }
        let list = build_schema();
        proof {
            lemma_blocks_len(27);
            assert(schema(list@).len() == list.len());
        }
        if header.tensors.len() != list.len() {
            return Err(MetalError::Model(Fault::Inventory));
        }
        let payload: u128 = match header.check(&list) {
            Ok(n) => n,
            Err(e) => {
                return Err(e);
            },
        };
        proof {
            lemma_bytes(header, schema(list@), list.len() as int);
        }
        if allocated as u128 + payload + Self::workspace_bound() as u128 > budget as u128 {
            return Err(MetalError::Memory(Fault::Budget));
        }
        proof {
            assert forall|j: int| 0 <= j < list.len() implies 0 < (#[trigger] list[j]).dims.len() by {
                assert(schema(list@)[j] == list[j]@);
            }
        }
        let patch = weight(header, &list, 0, first);
        let blocks = Self::load_blocks(header, &list, first);
        let v = Vision {
            patch: Linear {
                w: Weight { buffer: patch.buffer, ty: patch.ty, k: 588, n: E },
                b: weight(header, &list, 1, first),
            },
            pos: weight(header, &list, 2, first),
            blocks,
            post: Norm {
                w: weight(header, &list, 435, first),
                b: weight(header, &list, 436, first),
            },
            pre: Norm {
                w: weight(header, &list, 437, first),
                b: weight(header, &list, 438, first),
            },
            up: linear(header, &list, 439, first),
            down: linear(header, &list, 441, first),
        };
        Ok((v, payload as u64))
    }

    fn load_blocks(header: &Header, list: &Vec<Entry>, first: u32) -> (blocks: Vec<Block>)
        requires
            first <= 0x7fff_ffff,
            schema(list@) == tower_schema(),
            list.len() == 443,
            forall|j: int| 0 <= j < list.len() ==> 0 < (#[trigger] list[j]).dims.len(),
        ensures
            blocks.len() == 27,
            forall|i: int| 0 <= i < 27 ==> #[trigger] blocks[i] == block_of(header, first, i),
    {
        let mut blocks: Vec<Block> = Vec::new();
        let mut i: usize = 0;
        while i < DEPTH
            invariant
                i <= DEPTH,
                first <= 0x7fff_ffff,
                schema(list@) == tower_schema(),
                list.len() == 443,
                forall|j: int| 0 <= j < list.len() ==> 0 < (#[trigger] list[j]).dims.len(),
                blocks.len() == i,
                forall|k: int| 0 <= k < i ==> #[trigger] blocks[k] == block_of(header, first, k),
            decreases DEPTH - i,
        {
            let c: usize = 3 + 16 * i;
            let one = linear(header, list, c, first);
            let two = linear(header, list, c + 2, first);
            blocks.push(
                Block {
                    ln1: Norm { w: one.w, b: one.b },
                    ln2: Norm { w: two.w, b: two.b },
                    q: linear(header, list, c + 4, first),
                    k: linear(header, list, c + 6, first),
                    v: linear(header, list, c + 8, first),
                    o: linear(header, list, c + 10, first),
                    up: linear(header, list, c + 12, first),
                    down: linear(header, list, c + 14, first),
                },
            );
            i = i + 1;
        }
        blocks
    }
}

fn weight(h: &Header, list: &Vec<Entry>, j: usize, first: u32) -> (r: Weight)
    requires
        first <= 0x7fff_ffff,
        schema(list@) == tower_schema(),
        j < list.len() <= 443,
        forall|j: int| 0 <= j < list.len() ==> 0 < (#[trigger] list[j]).dims.len(),
    ensures
        r == tower_weight(h, first, j as int),
{
    let w = h.place(list, j);
    Weight {
        buffer: Buffer { id: w.buffer.id + first, len: w.buffer.len },
        ty: w.ty,
        k: w.k,
        n: w.n,
    }
}

fn linear(h: &Header, list: &Vec<Entry>, j: usize, first: u32) -> (r: Linear)
    requires
        first <= 0x7fff_ffff,
        schema(list@) == tower_schema(),
        j + 1 < list.len() <= 443,
        forall|j: int| 0 <= j < list.len() ==> 0 < (#[trigger] list[j]).dims.len(),
    ensures
        r == linear_of(h, first, j as int),
{
    Linear { w: weight(h, list, j, first), b: weight(h, list, j + 1, first) }
}

proof fn lemma_bytes(h: &Header, entries: Seq<Expected>, n: int)
    requires
        0 <= n,
    ensures
        0 <= resident_bytes(h, entries, n) <= n * 0xffff_ffff_ffff_ffff,
    decreases n,
{
    if n > 0 {
        lemma_bytes(h, entries, n - 1);
    }
}

} // verus!
