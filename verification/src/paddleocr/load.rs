//! Loading the decoder and attaching its tower.
use vstd::prelude::*;
use crate::arith::{ceil_div, div_ceil, lemma_ceil_div, lemma_product_bound, BLOCK_TOKENS};
use crate::error::{Fault, MetalError};
use crate::header::{
    block_name, block_text, expect, expected, first_unmet, is_named, placed, resident_bytes, schema, Entry,
    Expected, Header,
};
use crate::paddleocr::graph::{scratch_words, sum, Layer, Pending, Scratch, Slot, LAYERS};
use crate::paddleocr::multimodal::Encoding;
use crate::paddleocr::tower::{tower_fault, tower_loaded, tower_schema, Vision};
use crate::program::{list1, list2, list4, Buffer, Weight};

verus! {

#[derive(Debug)]
pub struct PaddleOcr {
    pub embedding: Weight,
    pub output_norm: Weight,
    pub head: Weight,
    pub layers: Vec<Layer>,
    pub scratch: Scratch,
    pub slots: Vec<Slot>,
    pub pending: Vec<Pending>,
    pub vision: Option<Vision>,
    /// Waves of images, the one in the tower first.
    pub encoding: Vec<Encoding>,
    pub context: usize,
    pub page_stride: usize,
    pub weight_bytes: u64,
    pub kv_bytes: u64,
}

/// The numbers that the decoder's metadata must give.
pub open spec fn field_fault(h: &Header) -> Option<usize> {
    if h.unsigned("embedding_length"@) != Some(1024u64) {
        Some(0)
    } else if h.unsigned("block_count"@) != Some(18u64) {
        Some(1)
    } else if h.unsigned("attention.head_count"@) != Some(16u64) {
        Some(2)
    } else if h.unsigned("attention.head_count_kv"@) != Some(2u64) {
        Some(3)
    } else if h.unsigned("attention.key_length"@) != Some(128u64) {
        Some(4)
    } else if h.unsigned("attention.value_length"@) != Some(128u64) {
        Some(5)
    } else if h.unsigned("feed_forward_length"@) != Some(3072u64) {
        Some(6)
    } else if h.unsigned("context_length"@) != Some(131072u64) {
        Some(7)
    } else if h.single("attention.layer_norm_rms_epsilon"@) != Some(0x3727_c5acu32) {
        Some(8)
    } else if h.single("rope.freq_base"@) != Some(0x48f4_2400u32) {
        Some(9)
    } else {
        None
    }
}

/// Three rotary sections and no scaling.
pub open spec fn rotary(h: &Header) -> bool {
    &&& h.list("rope.dimension_sections"@) == Some(
        seq![16u64, 24, 24, 0].map_values(|n: u64| Some(n)),
    )
    &&& !h.has_field("rope.scaling.type"@)
}

/// The tensors of block `i`.
pub open spec fn push_block(p: Seq<Expected>, i: int) -> Seq<Expected> {
    p.push(expected(block_name(i, "attn_norm.weight"@), seq![1024u64], 0, true)).push(
        expected(block_name(i, "ffn_norm.weight"@), seq![1024u64], 0, true),
    ).push(expected(block_name(i, "attn_q.weight"@), seq![1024u64, 2048], 30, true)).push(
        expected(block_name(i, "attn_k.weight"@), seq![1024u64, 256], 30, true),
    ).push(expected(block_name(i, "attn_v.weight"@), seq![1024u64, 256], 30, true)).push(
        expected(block_name(i, "attn_output.weight"@), seq![2048u64, 1024], 30, true),
    ).push(expected(block_name(i, "ffn_gate.weight"@), seq![1024u64, 3072], 30, true)).push(
        expected(block_name(i, "ffn_up.weight"@), seq![1024u64, 3072], 30, true),
    ).push(expected(block_name(i, "ffn_down.weight"@), seq![3072u64, 1024], 30, true))
}

/// The schema with the first `n` blocks.
pub open spec fn decoder_schema(n: int) -> Seq<Expected>
    decreases n,
{
    if n <= 0 {
        seq![
            expected("token_embd.weight"@, seq![1024u64, 103424], 30, true),
            expected("output.weight"@, seq![1024u64, 103424], 30, true),
            expected("output_norm.weight"@, seq![1024u64], 0, true),
        ]
    } else {
        push_block(decoder_schema(n - 1), n - 1)
    }
}

proof fn lemma_schema_len(n: int)
    requires
        0 <= n,
    ensures
        decoder_schema(n).len() == 3 + 9 * n,
        forall|j: int| 0 <= j < decoder_schema(n).len() ==> 0 < (#[trigger] decoder_schema(n)[j]).dims.len(),
    decreases n,
{
    if n > 0 {
        lemma_schema_len(n - 1);
    }
}

/// Pages of all slots and one spare set.
pub open spec fn page_count(context: int, batch: int) -> int {
    ceil_div(context, 16) * (batch + 1)
}

pub open spec fn kv_total(context: int, batch: int) -> int {
    page_count(context, batch) * 16 * 256 * 4 * 18
}

pub open spec fn required_bytes(weights: int, context: int, batch: int) -> int {
    weights + kv_total(context, batch) + sum(scratch_words(ceil_div(context, 16), batch)) * 4
}

/// Why a checkpoint is refused, in the order in which it is looked at.
pub open spec fn load_fault(h: &Header, context: usize, batch: usize, budget: u64) -> Option<MetalError> {
    let want = decoder_schema(18);
    let named = h.architecture matches Some(a) && a@ == "paddleocr"@;
    if !named {
        Some(MetalError::Model(Fault::Architecture))
    } else if field_fault(h) is Some {
        Some(MetalError::Model(Fault::Field { index: field_fault(h)->0 }))
    } else if !rotary(h) {
        Some(MetalError::Model(Fault::Scaled))
    } else if context == 0 || context > 32768 || batch == 0 || batch > 16 {
        Some(MetalError::Model(Fault::Range))
    } else if h.tensors.len() != want.len() {
        Some(MetalError::Model(Fault::Inventory))
    } else if first_unmet(h, want, 0) is Some {
        Some(MetalError::Model(Fault::Tensor { index: (first_unmet(h, want, 0)->0) as usize }))
    } else if required_bytes(
        resident_bytes(h, want, want.len() as int),
        context as int,
        batch as int,
    ) > budget {
        Some(MetalError::Memory(Fault::Budget))
    } else {
        None
    }
}

/// Block `i`; its caches follow the resident tensors.
pub open spec fn layer_of(h: &Header, context: int, batch: int, i: int) -> Layer {
    let w = |k: int| placed(h, decoder_schema(18), 3 + 9 * i + k);
    let bytes = (page_count(context, batch) * 8192) as u64;
    Layer {
        norm: w(0),
        post: w(1),
        q: w(2),
        k: w(3),
        v: w(4),
        o: w(5),
        gate: w(6),
        up: w(7),
        down: w(8),
        keys: Buffer { id: (165 + 2 * i) as u32, len: bytes },
        values: Buffer { id: (165 + 2 * i + 1) as u32, len: bytes },
    }
}

pub open spec fn slot_blank(s: Slot) -> bool {
    &&& s.blocks.len() == 0
    &&& s.history.len() == 0
    &&& s.reused == 0
    &&& s.mm is None
}

/// The decoder that a sound checkpoint gives.
pub open spec fn loaded(h: &Header, context: usize, batch: usize, m: PaddleOcr) -> bool {
    let want = decoder_schema(18);
    &&& m.embedding == placed(h, want, 0)
    &&& m.head == placed(h, want, 1)
    &&& m.output_norm == placed(h, want, 2)
    &&& m.layers.len() == 18
    &&& forall|i: int|
        0 <= i < 18 ==> #[trigger] m.layers[i] == layer_of(h, context as int, batch as int, i)
    &&& m.scratch.planes() == Seq::new(
        18,
        |i: int| Buffer {
            id: (201 + i) as u32,
            len: (scratch_words(ceil_div(context as int, 16), batch as int)[i] * 4) as u64,
        },
    )
    &&& m.slots.len() == batch
    &&& forall|i: int| 0 <= i < batch ==> slot_blank(#[trigger] m.slots[i])
    &&& m.pending.len() == 0
    &&& m.vision is None
    &&& m.encoding.len() == 0
    &&& m.context == context
    &&& m.page_stride == ceil_div(context as int, 16)
    &&& m.weight_bytes == resident_bytes(h, want, want.len() as int)
    &&& m.kv_bytes == kv_total(context as int, batch as int)
}

/// The caches of all blocks together take what admission charged for them.
pub proof fn caches_are_charged_exactly(h: &Header, context: int, batch: int)
    requires
        1 <= context <= 32768,
        1 <= batch <= 16,
    ensures
        forall|i: int|
            0 <= i < 18 ==> 36 * (#[trigger] layer_of(h, context, batch, i)).keys.len == kv_total(
                context,
                batch,
            ) && layer_of(h, context, batch, i).values.len == layer_of(h, context, batch, i).keys.len,
{
    lemma_ceil_div(context, 16);
    lemma_product_bound(ceil_div(context, 16), batch + 1, 2048, 17);
}

/// The schema, which also gives the order of upload.
pub fn build_schema() -> (list: Vec<Entry>)
    ensures
        schema(list@) == decoder_schema(18),
{
    let mut list: Vec<Entry> = Vec::new();
    expect(&mut list, "token_embd.weight".to_owned(), list2(1024, 103424), 30, true);
    expect(&mut list, "output.weight".to_owned(), list2(1024, 103424), 30, true);
    expect(&mut list, "output_norm.weight".to_owned(), list1(1024), 0, true);
    assert(schema(list@) =~= decoder_schema(0));
    let mut i: usize = 0;
    while i < LAYERS
        invariant
            i <= LAYERS,
            schema(list@) == decoder_schema(i as int),
        decreases LAYERS - i,
    {
        expect(&mut list, block_text(i, "attn_norm.weight"), list1(1024), 0, true);
        expect(&mut list, block_text(i, "ffn_norm.weight"), list1(1024), 0, true);
        expect(&mut list, block_text(i, "attn_q.weight"), list2(1024, 2048), 30, true);
        expect(&mut list, block_text(i, "attn_k.weight"), list2(1024, 256), 30, true);
        expect(&mut list, block_text(i, "attn_v.weight"), list2(1024, 256), 30, true);
        expect(&mut list, block_text(i, "attn_output.weight"), list2(2048, 1024), 30, true);
        expect(&mut list, block_text(i, "ffn_gate.weight"), list2(1024, 3072), 30, true);
        expect(&mut list, block_text(i, "ffn_up.weight"), list2(1024, 3072), 30, true);
        expect(&mut list, block_text(i, "ffn_down.weight"), list2(3072, 1024), 30, true);
        i = i + 1;
    }
    list
}

fn check_fields(h: &Header) -> (r: Option<usize>)
    ensures
        r == field_fault(h),
{
    if h.get_unsigned("embedding_length") != Some(1024u64) {
        return Some(0);
    }
    if h.get_unsigned("block_count") != Some(18u64) {
        return Some(1);
    }
    if h.get_unsigned("attention.head_count") != Some(16u64) {
        return Some(2);
    }
    if h.get_unsigned("attention.head_count_kv") != Some(2u64) {
        return Some(3);
    }
    if h.get_unsigned("attention.key_length") != Some(128u64) {
        return Some(4);
    }
    if h.get_unsigned("attention.value_length") != Some(128u64) {
        return Some(5);
    }
    if h.get_unsigned("feed_forward_length") != Some(3072u64) {
        return Some(6);
    }
    if h.get_unsigned("context_length") != Some(131072u64) {
        return Some(7);
    }
    if h.get_single("attention.layer_norm_rms_epsilon") != Some(0x3727_c5acu32) {
        return Some(8);
    }
    if h.get_single("rope.freq_base") != Some(0x48f4_2400u32) {
        return Some(9);
    }
    None
}

fn build_layers(h: &Header, list: &Vec<Entry>, context: usize, batch: usize, blocks: u64) -> (r: Vec<Layer>)
    requires
        schema(list@) == decoder_schema(18),
        list.len() == 165,
        forall|j: int| 0 <= j < list.len() ==> 0 < (#[trigger] list[j]).dims.len(),
        blocks == page_count(context as int, batch as int),
        blocks <= 34816,
    ensures
        r.len() == 18,
        forall|i: int|
            0 <= i < 18 ==> #[trigger] r[i] == layer_of(h, context as int, batch as int, i),
{
    let mut out: Vec<Layer> = Vec::new();
    let mut i: usize = 0;
    while i < LAYERS
        invariant
            i <= LAYERS,
            schema(list@) == decoder_schema(18),
            list.len() == 165,
            forall|j: int| 0 <= j < list.len() ==> 0 < (#[trigger] list[j]).dims.len(),
            blocks == page_count(context as int, batch as int),
            blocks <= 34816,
            out.len() == i,
            forall|k: int|
                0 <= k < i ==> #[trigger] out[k] == layer_of(h, context as int, batch as int, k),
        decreases LAYERS - i,
    {
        let c: usize = 3 + 9 * i;
        let id: u32 = 165 + 2 * i as u32;
        out.push(
            Layer {
                norm: h.place(list, c),
                post: h.place(list, c + 1),
                q: h.place(list, c + 2),
                k: h.place(list, c + 3),
                v: h.place(list, c + 4),
                o: h.place(list, c + 5),
                gate: h.place(list, c + 6),
                up: h.place(list, c + 7),
                down: h.place(list, c + 8),
                keys: Buffer { id, len: blocks * 8192 },
                values: Buffer { id: id + 1, len: blocks * 8192 },
            },
        );
        i = i + 1;
    }
    out
}

proof fn lemma_bytes(h: &Header, entries: Seq<Expected>, n: int)
    requires
        0 <= n,
    ensures
        0 <= resident_bytes(h, entries, n) <= n * 0xffff_ffff_ffff_ffff,
    decreases n,
{
    if n > 0 {
        lemma_bytes(h, entries, n - 1);
    }
}

impl PaddleOcr {
    /// What loading establishes and serving keeps.
    pub open spec fn wf(&self) -> bool {
        &&& 0 < self.slots.len() <= 16
        &&& 0 < self.context <= 32768
        &&& self.page_stride == ceil_div(self.context as int, 16)
        &&& forall|i: int|
            0 <= i < self.slots.len() ==> (#[trigger] self.slots[i]).history.len() <= self.context
        &&& forall|i: int|
            0 <= i < self.encoding.len() ==> (#[trigger] self.encoding[i]).wf(
                self.slots.len() as int,
                self.context as int,
            )
        &&& self.vision matches Some(v) ==> v.wf()
    }

    /// Accept exactly the elected checkpoint. Metadata, every tensor and the
    /// whole memory need are checked before anything is uploaded.
    pub fn load(header: &Header, context: usize, max_batch: usize, budget: u64) -> (r: Result<
        Self,
        MetalError,
    >)
        ensures
            match load_fault(header, context, max_batch, budget) {
                Some(e) => r == Err::<Self, MetalError>(e),
                None => {
                    &&& r matches Ok(m)
                    &&& m.wf()
                    &&& loaded(header, context, max_batch, m)
                },
            },
    {
        let named = match &header.architecture {
            Some(a) => is_named(a, "paddleocr"),
            None => false,
        };
        if !named {
            return Err(MetalError::Model(Fault::Architecture));
        }
        if let Some(index) = check_fields(header) {
            return Err(MetalError::Model(Fault::Field { index }));
        }
        let sections: Vec<u64> = list4(16, 24, 24, 0);
        if !header.list_is("rope.dimension_sections", &sections) || header.contains_field(
            "rope.scaling.type",
        ) {
            return Err(MetalError::Model(Fault::Scaled));
        }
        if context == 0 || context > 32768 || max_batch == 0 || max_batch > 16 {
            return Err(MetalError::Model(Fault::Range));
        }
        let list = build_schema();
        proof {
            lemma_schema_len(18);
            assert(schema(list@).len() == list.len());
            lemma_bytes(header, schema(list@), list.len() as int);
        }
        if header.tensors.len() != list.len() {
            return Err(MetalError::Model(Fault::Inventory));
        }
        let weights: u128 = match header.check(&list) {
            Ok(n) => n,
            Err(e) => {
                return Err(e);
            },
        };
        let stride: usize = div_ceil(context, BLOCK_TOKENS);
        proof {
            lemma_ceil_div(context as int, 16);
            lemma_product_bound(stride as int, max_batch + 1, 2048, 17);
        }
        let blocks: u64 = stride as u64 * (max_batch as u64 + 1);
        let kv: u64 = blocks * 16 * 256 * 4 * 18;
        let planes: usize = Scratch::bytes(stride, max_batch);
        if weights + kv as u128 + planes as u128 > budget as u128 {
            return Err(MetalError::Memory(Fault::Budget));
        }
        proof {
            assert forall|j: int| 0 <= j < list.len() implies 0 < (#[trigger] list[j]).dims.len() by {
                assert(schema(list@)[j] == list[j]@);
            }
        }
        let embedding = header.place(&list, 0);
        let head = header.place(&list, 1);
        let output_norm = header.place(&list, 2);
        let layers = build_layers(header, &list, context, max_batch, blocks);
        let scratch = Scratch::new(201, stride, max_batch);
        let mut slots: Vec<Slot> = Vec::new();
        let mut i: usize = 0;
        while i < max_batch
            invariant
                i <= max_batch,
                slots.len() == i,
                forall|j: int| 0 <= j < i ==> slot_blank(#[trigger] slots[j]),
            decreases max_batch - i,
        {
            slots.push(Slot { blocks: Vec::new(), history: Vec::new(), reused: 0, mm: None });
            i = i + 1;
        }
        Ok(
            PaddleOcr {
                embedding,
                output_norm,
                head,
                layers,
                scratch,
                slots,
                pending: Vec::new(),
                vision: None,
                encoding: Vec::new(),
                context,
                page_stride: stride,
                weight_bytes: weights as u64,
                kv_bytes: kv,
            },
        )
    }

    /// Nothing has been admitted and no tower is there.
    pub open spec fn untouched(&self) -> bool {
        &&& self.vision is None
        &&& self.encoding.len() == 0
        &&& self.pending.len() == 0
        &&& forall|i: int|
            0 <= i < self.slots.len() ==> (#[trigger] self.slots[i]).history.len() == 0
    }

    /// Attach the tower, once and before anything is admitted.
    pub fn attach_vision(&mut self, header: &Header, allocated: u64, budget: u64, first: u32) -> (r: Result<
        (),
        MetalError,
    >)
        requires
            old(self).wf(),
            first <= 0x7fff_ffff,
            old(self).weight_bytes <= allocated,
        ensures
            final(self).wf(),
            final(self).embedding == old(self).embedding,
            final(self).output_norm == old(self).output_norm,
            final(self).head == old(self).head,
            final(self).layers == old(self).layers,
            final(self).scratch == old(self).scratch,
            final(self).slots == old(self).slots,
            final(self).pending == old(self).pending,
            final(self).encoding == old(self).encoding,
            final(self).context == old(self).context,
            final(self).page_stride == old(self).page_stride,
            final(self).kv_bytes == old(self).kv_bytes,
            if !old(self).untouched() {
                &&& r == Err::<(), MetalError>(MetalError::Model(Fault::Attached))
                &&& final(self).vision == old(self).vision
                &&& final(self).weight_bytes == old(self).weight_bytes
            } else {
                match tower_fault(header, allocated, budget) {
                    Some(e) => {
                        &&& r == Err::<(), MetalError>(e)
                        &&& final(self).vision is None
                        &&& final(self).weight_bytes == old(self).weight_bytes
                    },
                    None => {
                        &&& r is Ok
                        &&& final(self).vision matches Some(v)
                        &&& tower_loaded(header, first, v)
                        &&& final(self).weight_bytes == old(self).weight_bytes + resident_bytes(
                            header,
                            tower_schema(),
                            tower_schema().len() as int,
                        )
                    },
                }
            },
    {
        if self.vision.is_some() || self.encoding.len() > 0 || self.pending.len() > 0 {
            return Err(MetalError::Model(Fault::Attached));
        }
        let mut i: usize = 0;
        while i < self.slots.len()
            invariant
                i <= self.slots.len(),
                *self == *old(self),
                self.wf(),
                forall|j: int| 0 <= j < i ==> (#[trigger] self.slots[j]).history.len() == 0,
            decreases self.slots.len() - i,
        {
            if self.slots[i].history.len() > 0 {
                return Err(MetalError::Model(Fault::Attached));
            }
            i = i + 1;
        }
        match Vision::load(header, allocated, budget, first) {
            Err(e) => Err(e),
            Ok((v, bytes)) => {
                self.weight_bytes = self.weight_bytes + bytes;
                self.vision = Some(v);
                Ok(())
            },
        }
    }
}

} // verus!
