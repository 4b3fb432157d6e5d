//! Attaching the block drafter: five layers over conditioning rings, grouped
//! convolutions and a path selector. Another version or shape is refused,
//! never run.
use vstd::prelude::*;
use crate::arith::{ceil_div, div_ceil, lemma_product_bound, min, MAX_ROWS};
use crate::error::{Fault, MetalError};
use crate::header::{
    based, block_name, block_text, expect, expected, is_named, schema, Entry, Expected, Header,
    ANY_FORMAT,
};
use crate::program::{list1, list2, list3, list5, Buffer, Weight};
use crate::qwen35::attach_mtp::{rebase, Added};
use crate::qwen35::dflash::{Conv, Dflash, DraftLayer, MASK, ROPE};
use crate::qwen35::geometry::Geometry;
use crate::qwen35::graph::{Graph, Verify, MAX_PAGES};
use crate::qwen35::source::{first_lack, plane_bytes, planes, Source, Store};
use crate::qwen35::state::Qwen35;

verus! {

/// Numbers that a mapped drafter must have, by their place.
pub open spec fn draft_fields() -> Seq<(Seq<char>, u64)> {
    seq![
        ("embedding_length"@, 5120u64),
        ("feed_forward_length"@, 17408u64),
        ("block_count"@, 5u64),
        ("attention.head_count"@, 32u64),
        ("attention.head_count_kv"@, 8u64),
        ("attention.key_length"@, 128u64),
        ("attention.value_length"@, 128u64),
        ("attention.sliding_window"@, 2048u64),
        ("block_size"@, 8u64),
        ("conv_kernel_size"@, 2u64),
        ("conv_group_size"@, 16u64),
        ("selector_rank"@, 256u64),
        ("selector_top_k"@, 16u64),
    ]
}

/// The first number from `i` on that differs.
pub open spec fn first_differing(h: &Header, i: int) -> Option<int>
    decreases 13 - i,
{
    if i >= 13 {
        None
    } else if h.unsigned(draft_fields()[i].0) != Some(draft_fields()[i].1) {
        Some(i)
    } else {
        first_differing(h, i + 1)
    }
}

/// Taps, causality, rotary base, normalisation and mask token agree.
pub open spec fn conditioned(h: &Header, eps: u32) -> bool {
    &&& h.list("target_layers"@) == Some(seq![6u64, 20, 34, 48, 62].map_values(|n: u64| Some(n)))
    &&& h.flag("attention.causal"@) == Some(false)
    &&& h.single("rope.freq_base"@) == Some(ROPE)
    &&& h.single("attention.layer_norm_rms_epsilon"@) == Some(eps)
    &&& h.unsigned("tokenizer.ggml.mask_token_id"@) == Some(MASK as u64)
}

fn number_is(h: &Header, key: &str, want: u64) -> (r: bool)
    ensures
        r == (h.unsigned(key@) == Some(want)),
{
    match h.get_unsigned(key) {
        Some(n) => n == want,
        None => false,
    }
}

fn bits_are(h: &Header, key: &str, want: u32) -> (r: bool)
    ensures
        r == (h.single(key@) == Some(want)),
{
    match h.get_single(key) {
        Some(n) => n == want,
        None => false,
    }
}

fn check_fields(h: &Header) -> (r: Option<usize>)
    ensures
        match r {
            Some(i) => first_differing(h, 0) == Some(i as int),
            None => first_differing(h, 0) is None,
        },
{
    proof {
        reveal_with_fuel(first_differing, 15);
    }
    if !number_is(h, "embedding_length", 5120) {
        return Some(0);
    }
    if !number_is(h, "feed_forward_length", 17408) {
        return Some(1);
    }
    if !number_is(h, "block_count", 5) {
        return Some(2);
    }
    if !number_is(h, "attention.head_count", 32) {
        return Some(3);
    }
    if !number_is(h, "attention.head_count_kv", 8) {
        return Some(4);
    }
    if !number_is(h, "attention.key_length", 128) {
        return Some(5);
    }
    if !number_is(h, "attention.value_length", 128) {
        return Some(6);
    }
    if !number_is(h, "attention.sliding_window", 2048) {
        return Some(7);
    }
    if !number_is(h, "block_size", 8) {
        return Some(8);
    }
    if !number_is(h, "conv_kernel_size", 2) {
        return Some(9);
    }
    if !number_is(h, "conv_group_size", 16) {
        return Some(10);
    }
    if !number_is(h, "selector_rank", 256) {
        return Some(11);
    }
    if !number_is(h, "selector_top_k", 16) {
        return Some(12);
    }
    None
}

fn is_conditioned(h: &Header, eps: u32) -> (r: bool)
    ensures
        r == conditioned(h, eps),
{
    let taps = list5(6u64, 20, 34, 48, 62);
    let causal = match h.get_flag("attention.causal") {
        Some(b) => b,
        None => true,
    };
    h.list_is("target_layers", &taps) && !causal && bits_are(h, "rope.freq_base", ROPE) && bits_are(
        h,
        "attention.layer_norm_rms_epsilon",
        eps,
    ) && number_is(h, "tokenizer.ggml.mask_token_id", MASK as u64)
}

/// The fifteen tensors of draft layer `i`.
pub open spec fn draft_entries(i: int) -> Seq<Expected> {
    seq![
        expected(block_name(i, "attn_norm.weight"@), seq![5120u64], 0, true),
        expected(block_name(i, "ffn_norm.weight"@), seq![5120u64], 0, true),
        expected(block_name(i, "attn_q.weight"@), seq![5120u64, 4096], ANY_FORMAT, true),
        expected(block_name(i, "attn_k.weight"@), seq![5120u64, 1024], ANY_FORMAT, true),
        expected(block_name(i, "attn_v.weight"@), seq![5120u64, 1024], ANY_FORMAT, true),
        expected(block_name(i, "attn_output.weight"@), seq![4096u64, 5120], ANY_FORMAT, true),
        expected(block_name(i, "attn_q_norm.weight"@), seq![128u64], 0, true),
        expected(block_name(i, "attn_k_norm.weight"@), seq![128u64], 0, true),
        expected(block_name(i, "ffn_gate.weight"@), seq![5120u64, 17408], ANY_FORMAT, true),
        expected(block_name(i, "ffn_up.weight"@), seq![5120u64, 17408], ANY_FORMAT, true),
        expected(block_name(i, "ffn_down.weight"@), seq![17408u64, 5120], ANY_FORMAT, true),
        expected(block_name(i, "attn_conv_base"@), seq![5120u64, 2, 2], 0, true),
        expected(block_name(i, "attn_conv_proj.weight"@), seq![5120u64, 1280], ANY_FORMAT, true),
        expected(block_name(i, "ffn_conv_base"@), seq![5120u64, 2, 2], 0, true),
        expected(block_name(i, "ffn_conv_proj.weight"@), seq![5120u64, 1280], ANY_FORMAT, true),
    ]
}

/// The layers one after another.
pub open spec fn draft_layers(n: int) -> Seq<Expected>
    decreases n,
{
    if n <= 0 {
        Seq::empty()
    } else {
        draft_layers(n - 1) + draft_entries(n - 1)
    }
}

/// Conditioning, norms and path selector.
pub open spec fn draft_tail(vocab: u64) -> Seq<Expected> {
    seq![
        expected("fc.weight"@, seq![25600u64, 5120], ANY_FORMAT, true),
        expected("enc.output_norm.weight"@, seq![5120u64], 0, true),
        expected("output_norm.weight"@, seq![5120u64], 0, true),
        expected("selector_hidden.weight"@, seq![5120u64, 256], ANY_FORMAT, true),
        expected("selector_predecessor.weight"@, seq![256u64, vocab], ANY_FORMAT, true),
        expected("selector_successor.weight"@, seq![256u64, vocab], ANY_FORMAT, true),
    ]
}

pub open spec fn draft_schema(vocab: u64) -> Seq<Expected> {
    draft_layers(5) + draft_tail(vocab)
}

proof fn lemma_draft_schema(vocab: u64)
    ensures
        draft_schema(vocab).len() == 81,
{
    lemma_draft_layers(5);
}

proof fn lemma_draft_layers(n: int)
    requires
        0 <= n,
    ensures
        draft_layers(n).len() == 15 * n,
    decreases n,
{
    if n > 0 {
        lemma_draft_layers(n - 1);
    }
}

fn push_draft_layer(list: &mut Vec<Entry>, i: usize)
    ensures
        schema(final(list)@) == schema(old(list)@) + draft_entries(i as int),
{
    let ghost before = schema(list@);
    expect(list, block_text(i, "attn_norm.weight"), list1(5120), 0, true);
    expect(list, block_text(i, "ffn_norm.weight"), list1(5120), 0, true);
    expect(list, block_text(i, "attn_q.weight"), list2(5120, 4096), ANY_FORMAT, true);
    expect(list, block_text(i, "attn_k.weight"), list2(5120, 1024), ANY_FORMAT, true);
    expect(list, block_text(i, "attn_v.weight"), list2(5120, 1024), ANY_FORMAT, true);
    expect(list, block_text(i, "attn_output.weight"), list2(4096, 5120), ANY_FORMAT, true);
    expect(list, block_text(i, "attn_q_norm.weight"), list1(128), 0, true);
    expect(list, block_text(i, "attn_k_norm.weight"), list1(128), 0, true);
    expect(list, block_text(i, "ffn_gate.weight"), list2(5120, 17408), ANY_FORMAT, true);
    expect(list, block_text(i, "ffn_up.weight"), list2(5120, 17408), ANY_FORMAT, true);
    expect(list, block_text(i, "ffn_down.weight"), list2(17408, 5120), ANY_FORMAT, true);
    expect(list, block_text(i, "attn_conv_base"), list3(5120, 2, 2), 0, true);
    expect(list, block_text(i, "attn_conv_proj.weight"), list2(5120, 1280), ANY_FORMAT, true);
    expect(list, block_text(i, "ffn_conv_base"), list3(5120, 2, 2), 0, true);
    expect(list, block_text(i, "ffn_conv_proj.weight"), list2(5120, 1280), ANY_FORMAT, true);
    assert(schema(list@) =~= before + draft_entries(i as int));
}

/// Everything that a drafter for this vocabulary uploads.
pub fn build_draft_schema(vocab: u64) -> (list: Vec<Entry>)
    ensures
        schema(list@) == draft_schema(vocab),
        list.len() == 81,
{
    let mut list: Vec<Entry> = Vec::new();
    let mut i: usize = 0;
    assert(schema(list@) =~= draft_layers(0));
    while i < 5
        invariant
            i <= 5,
            schema(list@) == draft_layers(i as int),
        decreases 5 - i,
    {
        push_draft_layer(&mut list, i);
        i = i + 1;
    }
    let ghost before = schema(list@);
    expect(&mut list, "fc.weight".to_owned(), list2(25600, 5120), ANY_FORMAT, true);
    expect(&mut list, "enc.output_norm.weight".to_owned(), list1(5120), 0, true);
    expect(&mut list, "output_norm.weight".to_owned(), list1(5120), 0, true);
    expect(&mut list, "selector_hidden.weight".to_owned(), list2(5120, 256), ANY_FORMAT, true);
    expect(&mut list, "selector_predecessor.weight".to_owned(), list2(256, vocab), ANY_FORMAT, true);
    expect(&mut list, "selector_successor.weight".to_owned(), list2(256, vocab), ANY_FORMAT, true);
    proof {
        assert(schema(list@) =~= before + draft_tail(vocab));
        lemma_draft_schema(vocab);
    }
    list
}

/// Codebooks that the selector reads exactly; half precision where the
/// drafter is packed.
pub open spec fn selectable(ty: u32, packed: bool) -> bool {
    ty == 12 || ty == 13 || ty == 14 || ty == 23 || (packed && ty == 30)
}

fn is_selectable(ty: u32, packed: bool) -> (r: bool)
    ensures
        r == selectable(ty, packed),
{
    ty == 12 || ty == 13 || ty == 14 || ty == 23 || (packed && ty == 30)
}

/// Pages of one ring: the window of 2048 rows and 64 spare ones, or the whole
/// context.
pub open spec fn ring_pages(stride: int) -> int {
    min(stride, 132)
}

/// The page of ring `slot` that holds page `p` of its sequence.
pub open spec fn ring_page(slot: int, p: int, pages: int) -> int {
    slot * pages + p % pages
}

/// The row of the rings that holds position `p` of sequence `slot`.
pub open spec fn ring_row(slot: int, p: int, pages: int) -> int {
    ring_page(slot, p / 16, pages) * 16 + p % 16
}

/// The ring table of `slots` sequences.
pub open spec fn ring_table(slots: int, stride: int) -> Seq<u32> {
    Seq::new(
        (slots * stride) as nat,
        |i: int| ring_page(i / stride, i % stride, ring_pages(stride)) as u32,
    )
}

/// Two positions of different sequences never share a ring row, nor two of
/// one sequence that are fewer rows apart than the ring holds: neither a
/// trailing cut nor a verification overwrites a window that is still live.
pub proof fn ring_rows_do_not_collide(a: int, p: int, b: int, q: int, pages: int)
    requires
        0 < pages,
        0 <= a,
        0 <= b,
        0 <= p,
        0 <= q,
        a != b || (p < q && q - p < pages * 16),
    ensures
        ring_row(a, p, pages) != ring_row(b, q, pages),
{
    let x = p / 16;
    let y = q / 16;
    vstd::arithmetic::div_mod::lemma_mod_bound(x, pages);
    vstd::arithmetic::div_mod::lemma_mod_bound(y, pages);
    if ring_row(a, p, pages) == ring_row(b, q, pages) {
        assert(p % 16 == q % 16);
        assert(a * pages + x % pages == b * pages + y % pages);
        if a < b {
            assert((a + 1) * pages <= b * pages && (a + 1) * pages == a * pages + pages) by (nonlinear_arith)
                requires
                    a + 1 <= b,
                    0 < pages,
            ;
        } else if b < a {
            assert((b + 1) * pages <= a * pages && (b + 1) * pages == b * pages + pages) by (nonlinear_arith)
                requires
                    b + 1 <= a,
                    0 < pages,
            ;
        } else {
            assert(x % pages == y % pages);
            assert(q - p == 16 * (y - x));
            assert(0 < y - x < pages);
            vstd::arithmetic::div_mod::lemma_fundamental_div_mod(x, pages);
            vstd::arithmetic::div_mod::lemma_fundamental_div_mod(y, pages);
            let m = x / pages;
            let n = y / pages;
            assert(y - x == pages * (n - m)) by (nonlinear_arith)
                requires
                    x == pages * m + x % pages,
                    y == pages * n + y % pages,
                    x % pages == y % pages,
            ;
            assert(false) by (nonlinear_arith)
                requires
                    y - x == pages * (n - m),
                    0 < y - x < pages,
                    0 < pages,
            ;
        }
    }
}

fn build_table(slots: usize, stride: usize, pages: usize) -> (r: Vec<u32>)
    requires
        0 < stride <= MAX_PAGES,
        slots <= 512,
        pages == ring_pages(stride as int),
    ensures
        r@ == ring_table(slots as int, stride as int),
{
    let mut out: Vec<u32> = Vec::new();
    let ghost all = ring_table(slots as int, stride as int);
    let mut s: usize = 0;
    assert(0int * stride == 0) by (nonlinear_arith);
    while s < slots
        invariant
            s <= slots <= 512,
            0 < stride <= MAX_PAGES,
            pages == ring_pages(stride as int),
            all == ring_table(slots as int, stride as int),
            out@ == all.take(s * stride),
            s * stride <= slots * stride,
        decreases slots - s,
    {
        proof {
            assert((s + 1) * stride == s * stride + stride) by (nonlinear_arith);
            lemma_product_bound(s + 1, stride as int, slots as int, stride as int);
            lemma_product_bound(s as int, pages as int, 512, 132);
        }
        let mut p: usize = 0;
        while p < stride
            invariant
                p <= stride,
                s < slots <= 512,
                0 < stride <= MAX_PAGES,
                0 < pages <= 132,
                pages == ring_pages(stride as int),
                s * pages <= 512 * 132,
                all == ring_table(slots as int, stride as int),
                (s + 1) * stride == s * stride + stride,
                (s + 1) * stride <= slots * stride,
                0 <= s * stride,
                out@ == all.take(s * stride + p),
            decreases stride - p,
        {
            proof {
                let i = s * stride + p;
                vstd::arithmetic::div_mod::lemma_fundamental_div_mod_converse(
                    i,
                    stride as int,
                    s as int,
                    p as int,
                );
                assert(all[i] == ring_page(s as int, p as int, pages as int) as u32);
                assert(all.take(i + 1) =~= all.take(i).push(all[i]));
            }
            out.push((s * pages + p % pages) as u32);
            p = p + 1;
        }
        s = s + 1;
    }
    assert(all.take(slots * stride) =~= all);
    out
}

/// Bytes of one layer's rings of keys or values.
pub open spec fn ring_bytes(q: &Graph) -> int {
    q.state_slots * (ring_pages(q.page_stride as int) * 16 * 2048)
}

/// Draft layer `i` out of the uploaded entries.
pub open spec fn draft_layer(w: Seq<Weight>, first: u32, bytes: int, i: int) -> DraftLayer {
    let b = 15 * i;
    DraftLayer {
        norm: based(w[b], first),
        post: based(w[b + 1], first),
        q: based(w[b + 2], first),
        k: based(w[b + 3], first),
        v: based(w[b + 4], first),
        o: based(w[b + 5], first),
        qn: based(w[b + 6], first),
        kn: based(w[b + 7], first),
        gate: based(w[b + 8], first),
        up: based(w[b + 9], first),
        down: based(w[b + 10], first),
        ac: Conv { base: based(w[b + 11], first), proj: based(w[b + 12], first) },
        fc: Conv { base: based(w[b + 13], first), proj: based(w[b + 14], first) },
        keys: Buffer { id: (first + 81 + 2 * i) as u32, len: bytes as u64 },
        values: Buffer { id: (first + 82 + 2 * i) as u32, len: bytes as u64 },
    }
}

/// The planes of a drafter, allocated in order.
pub open spec fn numbered(w: Seq<Weight>) -> bool {
    &&& w.len() == 81
    &&& forall|j: int| 0 <= j < w.len() ==> (#[trigger] w[j]).buffer.id == j
}

fn build_draft_layers(w: &Vec<Weight>, first: u32, bytes: u64) -> (r: Vec<DraftLayer>)
    requires
        first <= 0x7fff_ffff,
        numbered(w@),
    ensures
        r.len() == 5,
        forall|i: int|
            0 <= i < 5 ==> #[trigger] r[i] == draft_layer(w@, first, bytes as int, i),
{
    let mut out: Vec<DraftLayer> = Vec::new();
    let mut i: usize = 0;
    while i < 5
        invariant
            i <= 5,
            first <= 0x7fff_ffff,
            numbered(w@),
            out.len() == i,
            forall|k: int|
                0 <= k < i ==> #[trigger] out[k] == draft_layer(w@, first, bytes as int, k),
        decreases 5 - i,
    {
        let b: usize = 15 * i;
        out.push(
            DraftLayer {
                norm: rebase(w[b], first),
                post: rebase(w[b + 1], first),
                q: rebase(w[b + 2], first),
                k: rebase(w[b + 3], first),
                v: rebase(w[b + 4], first),
                o: rebase(w[b + 5], first),
                qn: rebase(w[b + 6], first),
                kn: rebase(w[b + 7], first),
                gate: rebase(w[b + 8], first),
                up: rebase(w[b + 9], first),
                down: rebase(w[b + 10], first),
                ac: Conv { base: rebase(w[b + 11], first), proj: rebase(w[b + 12], first) },
                fc: Conv { base: rebase(w[b + 13], first), proj: rebase(w[b + 14], first) },
                keys: Buffer { id: first + 81 + 2 * i as u32, len: bytes },
                values: Buffer { id: first + 82 + 2 * i as u32, len: bytes },
            },
        );
        i = i + 1;
    }
    out
}

impl Dflash {
    /// The planes of the drafter in the order of their allocation.
    pub open spec fn planes(self) -> Seq<Buffer> {
        seq![
            self.pages,
            self.taps,
            self.conditioning,
            self.z,
            self.x,
            self.norm,
            self.delta,
            self.conv,
            self.coeff,
            self.q,
            self.qn,
            self.k,
            self.v,
            self.attn,
            self.gate,
            self.up,
            self.gemm,
            self.logits,
            self.top,
            self.top_parts,
            self.selector_h,
            self.out,
        ]
    }
}

/// Bytes of the drafter's projection workspace for ticks of `n` rows.
pub open spec fn draft_gemm(q: &Graph, n: int, workspace: u64) -> int {
    if q.splash { workspace as int } else { n * 51200 }
}

/// Bytes of the planes, in the order of their allocation: rows of a tick,
/// then rows of a verification pass.
pub open spec fn draft_sizes(q: &Graph, slots: int, rows: int, workspace: u64) -> Seq<int> {
    let n = q.row_capacity as int;
    seq![
        slots * q.page_stride * 4,
        n * 102400,
        n * 20480,
        n * 20480,
        n * 20480,
        n * 20480,
        n * 20480,
        n * 20480,
        n * 5120,
        n * 16384,
        n * 16384,
        n * 4096,
        n * 4096,
        n * 16384,
        n * 69632,
        n * 69632,
        draft_gemm(q, n, workspace),
        rows * q.vocab * 4,
        rows * 128,
        rows * ceil_div(q.vocab as int, 4096) * 128,
        rows * 1024,
        rows * 4,
    ]
}

/// What a drafter is made of that was attached with the planes `w`.
pub open spec fn drafted(w: Seq<Weight>, q: &Qwen35, first: u32, verify: Verify, workspace: u64, d: Dflash) -> bool {
    &&& d.fc == based(w[75], first)
    &&& d.enc_norm == based(w[76], first)
    &&& d.out_norm == based(w[77], first)
    &&& d.selector == based(w[78], first)
    &&& d.pred == based(w[79], first)
    &&& d.succ == based(w[80], first)
    &&& d.layers.len() == 5
    &&& forall|i: int|
        0 <= i < 5 ==> #[trigger] d.layers[i] == draft_layer(w, first, ring_bytes(&q.graph), i)
    &&& d.ring_tokens == ring_pages(q.graph.page_stride as int) * 16
    &&& d.planes() == Seq::new(
        22,
        |i: int| Buffer {
            id: (first + 91 + i) as u32,
            len: draft_sizes(&q.graph, q.slots.len() as int, verify.rows as int, workspace)[i] as u64,
        },
    )
}

impl Qwen35 {
    /// Why a drafter is refused. A packed one goes only with a packed target.
    pub open spec fn dflash_fault(&self, src: &Source, cold: bool) -> Option<Fault> {
        let list = draft_schema(self.graph.vocab as u64);
        let w = planes(src, list);
        let h = &src.header;
        let packed = src.store is Packed;
        if self.graph.bonsai is Some || self.graph.ternary {
            Some(Fault::Companion)
        } else if self.graph.geometry != Geometry::dense_27b() {
            Some(Fault::Geometry)
        } else if self.uncommitted {
            Some(Fault::Uncommitted)
        } else if self.graph.dflash is Some || cold || self.used() || self.saved_any() {
            Some(Fault::Attached)
        } else if packed && !self.graph.splash {
            Some(Fault::Companion)
        } else if !packed && !(h.architecture matches Some(a) && a@ == "dflash"@) {
            Some(Fault::Architecture)
        } else if !packed && first_differing(h, 0) is Some {
            Some(Fault::Field { index: first_differing(h, 0)->0 as usize })
        } else if !packed && !conditioned(h, self.graph.eps) {
            Some(Fault::Field { index: 13 })
        } else if first_lack(src, list, 0) is Some {
            Some(Fault::Tensor { index: first_lack(src, list, 0)->0 as usize })
        } else if !selectable(w[79].ty, packed) || !selectable(
            w[80].ty,
            packed,
        ) {
            Some(Fault::Selector)
        } else {
            None
        }
    }

    /// Attach the block drafter, once, before any prompt. Its ring table is
    /// handed out for upload. `workspace` is what the packed lane takes for a
    /// tick.
    pub fn attach_dflash(
        &mut self,
        src: &Source,
        cold: bool,
        first: u32,
        verify: Verify,
        workspace: u64,
    ) -> (r: Result<(Added, Vec<u32>), MetalError>)
        requires
            old(self).wf(),
            src.sized(),
            0 < old(self).graph.page_stride,
            first <= 0x7fff_ffff,
            0 < verify.live,
            verify.rows <= MAX_ROWS,
        ensures
            final(self).wf(),
            final(self).slots == old(self).slots,
            final(self).cache == old(self).cache,
            final(self).clock == old(self).clock,
            final(self).pending == old(self).pending,
            final(self).uncommitted == old(self).uncommitted,
            match old(self).dflash_fault(src, cold) {
                Some(f) => {
                    &&& r == Err::<(Added, Vec<u32>), MetalError>(MetalError::Model(f))
                    &&& final(self).graph == old(self).graph
                },
                None => {
                    let pass = match old(self).graph.spec {
                        Some(v) => v,
                        None => verify,
                    };
                    let w = planes(src, draft_schema(old(self).graph.vocab as u64));
                    &&& r matches Ok((added, table))
                    &&& added.weight_bytes == plane_bytes(w, 81)
                    &&& added.kv_bytes == 10 * ring_bytes(&old(self).graph)
                    &&& table@ == ring_table(
                        old(self).slots.len() as int,
                        old(self).graph.page_stride as int,
                    )
                    &&& final(self).graph.dflash matches Some(d)
                    &&& drafted(w, old(self), first, pass, workspace, d)
                    &&& final(self).graph == (Graph {
                        spec: Some(pass),
                        dflash: final(self).graph.dflash,
                        ..old(self).graph
                    })
                },
            },
    {
        if self.graph.bonsai.is_some() || self.graph.ternary {
            return Err(MetalError::Model(Fault::Companion));
        }
        if self.graph.geometry != Geometry::dense_27b() {
            return Err(MetalError::Model(Fault::Geometry));
        }
        if self.uncommitted {
            return Err(MetalError::Model(Fault::Uncommitted));
        }
        if self.graph.dflash.is_some() || cold || self.any_history() || self.any_saved() {
            return Err(MetalError::Model(Fault::Attached));
        }
        let h = &src.header;
        let packed = match &src.store {
            Store::Packed { .. } => true,
            _ => false,
        };
        if packed && !self.graph.splash {
            return Err(MetalError::Model(Fault::Companion));
        }
        if !packed {
            let named = match &h.architecture {
                Some(a) => is_named(a, "dflash"),
                None => false,
            };
            if !named {
                return Err(MetalError::Model(Fault::Architecture));
            }
            if let Some(i) = check_fields(h) {
                return Err(MetalError::Model(Fault::Field { index: i }));
            }
            if !is_conditioned(h, self.graph.eps) {
                return Err(MetalError::Model(Fault::Field { index: 13 }));
            }
        }
        let list = build_draft_schema(self.graph.vocab as u64);
        let (w, weight_bytes) = match src.load_all(&list) {
            Ok(x) => x,
            Err(e) => {
                return Err(e);
            },
        };
        if !is_selectable(w[79].ty, packed) || !is_selectable(
            w[80].ty,
            packed,
        ) {
            return Err(MetalError::Model(Fault::Selector));
        }
        let pass = match self.graph.spec {
            Some(v) => v,
            None => verify,
        };
        let (d, kv) = self.build_draft(&w, first, pass.rows, workspace, Ghost(pass));
        let table = build_table(self.slots.len(), self.graph.page_stride, d.ring_tokens / 16);
        self.graph.spec = Some(pass);
        self.graph.dflash = Some(d);
        Ok((Added { weight_bytes, kv_bytes: 10 * kv }, table))
    }

    fn build_draft(
        &self,
        w: &Vec<Weight>,
        first: u32,
        passing: usize,
        workspace: u64,
        Ghost(pass): Ghost<Verify>,
    ) -> (r: (Dflash, u64))
        requires
            self.wf(),
            self.graph.geometry == Geometry::dense_27b(),
            0 < self.graph.page_stride,
            first <= 0x7fff_ffff,
            passing <= MAX_ROWS,
            pass.rows == passing,
            numbered(w@),
        ensures
            drafted(w@, self, first, pass, workspace, r.0),
            r.0.wf(self.graph.geometry),
            r.1 == ring_bytes(&self.graph),
            r.1 <= 0xffff_ffff_ffff,
    {
        let stride: usize = self.graph.page_stride;
        let pages: usize = if stride < 132 { stride } else { 132 };
        let ring: u64 = pages as u64 * 16 * 2048;
        proof {
            lemma_product_bound(self.graph.state_slots as int, ring as int, 1536, 132int * 32768);
        }
        let kv: u64 = self.graph.state_slots as u64 * ring;
        let layers = build_draft_layers(w, first, kv);
        let n: u64 = self.graph.row_capacity as u64;
        let rows: u64 = passing as u64;
        let vocab: u64 = self.graph.vocab as u64;
        let slots: u64 = self.slots.len() as u64;
        let parts: u64 = div_ceil(self.graph.vocab, 4096) as u64;
        proof {
            lemma_product_bound(slots as int, stride as int, 512, MAX_PAGES as int);
            lemma_product_bound(rows as int, vocab as int, 65536, 0x80_0000);
            lemma_product_bound(rows as int, parts as int, 65536, 0x80_0000);
        }
        let id: u32 = first + 91;
        let d = Dflash {
            fc: rebase(w[75], first),
            enc_norm: rebase(w[76], first),
            out_norm: rebase(w[77], first),
            selector: rebase(w[78], first),
            pred: rebase(w[79], first),
            succ: rebase(w[80], first),
            layers,
            pages: Buffer { id, len: slots * stride as u64 * 4 },
            ring_tokens: pages * 16,
            taps: Buffer { id: id + 1, len: n * 102400 },
            conditioning: Buffer { id: id + 2, len: n * 20480 },
            z: Buffer { id: id + 3, len: n * 20480 },
            x: Buffer { id: id + 4, len: n * 20480 },
            norm: Buffer { id: id + 5, len: n * 20480 },
            delta: Buffer { id: id + 6, len: n * 20480 },
            conv: Buffer { id: id + 7, len: n * 20480 },
            coeff: Buffer { id: id + 8, len: n * 5120 },
            q: Buffer { id: id + 9, len: n * 16384 },
            qn: Buffer { id: id + 10, len: n * 16384 },
            k: Buffer { id: id + 11, len: n * 4096 },
            v: Buffer { id: id + 12, len: n * 4096 },
            attn: Buffer { id: id + 13, len: n * 16384 },
            gate: Buffer { id: id + 14, len: n * 69632 },
            up: Buffer { id: id + 15, len: n * 69632 },
            gemm: Buffer { id: id + 16, len: if self.graph.splash { workspace } else { n * 51200 } },
            logits: Buffer { id: id + 17, len: rows * vocab * 4 },
            top: Buffer { id: id + 18, len: rows * 128 },
            top_parts: Buffer { id: id + 19, len: rows * parts * 128 },
            selector_h: Buffer { id: id + 20, len: rows * 1024 },
            out: Buffer { id: id + 21, len: rows * 4 },
        };
        assert(d.planes() =~= Seq::new(
            22,
            |i: int| Buffer {
                id: (first + 91 + i) as u32,
                len: draft_sizes(&self.graph, self.slots.len() as int, pass.rows as int, workspace)[i] as u64,
            },
        ));
        (d, kv)
    }

    /// New row planes of the drafter for ticks of `n` rows.
    pub fn reserve_dflash_rows(&mut self, n: usize, first: u32, workspace: u64)
        requires
            old(self).wf(),
            n <= MAX_ROWS,
            first <= u32::MAX - 6,
        ensures
            final(self).wf(),
            final(self).slots == old(self).slots,
            final(self).cache == old(self).cache,
            final(self).clock == old(self).clock,
            final(self).pending == old(self).pending,
            final(self).uncommitted == old(self).uncommitted,
            match old(self).graph.dflash {
                None => final(self).graph == old(self).graph,
                Some(d) => final(self).graph == (Graph {
                    dflash: Some(
                        Dflash {
                            taps: Buffer { id: first, len: (n * 102400) as u64 },
                            conditioning: Buffer { id: (first + 1) as u32, len: (n * 20480) as u64 },
                            z: Buffer { id: (first + 2) as u32, len: (n * 20480) as u64 },
                            k: Buffer { id: (first + 3) as u32, len: (n * 4096) as u64 },
                            v: Buffer { id: (first + 4) as u32, len: (n * 4096) as u64 },
                            gemm: Buffer {
                                id: (first + 5) as u32,
                                len: draft_gemm(&old(self).graph, n as int, workspace) as u64,
                            },
                            ..d
                        },
                    ),
                    ..old(self).graph
                }),
            },
    {
        let splash = self.graph.splash;
        let rows: u64 = n as u64;
        let mut held: Option<Dflash> = None;
        std::mem::swap(&mut self.graph.dflash, &mut held);
        match held {
            None => {},
            Some(d) => {
                let mut d = d;
                d.taps = Buffer { id: first, len: rows * 102400 };
                d.conditioning = Buffer { id: first + 1, len: rows * 20480 };
                d.z = Buffer { id: first + 2, len: rows * 20480 };
                d.k = Buffer { id: first + 3, len: rows * 4096 };
                d.v = Buffer { id: first + 4, len: rows * 4096 };
                d.gemm = Buffer { id: first + 5, len: if splash { workspace } else { rows * 51200 } };
                self.graph.dflash = Some(d);
            },
        }
    }
}

} // verus!
