//! Exact-boundary checkpoints as byte runs: attention pages, every recurrent
//! and convolution state, the next-token block and the drafter's rings. No
//! lossy conversion.
use vstd::prelude::*;
use crate::arith::{lemma_product_bound, BLOCK_TOKENS};
use crate::header::{decimal, decimal_text};
use crate::offload::{
    lemma_bytes_push, lemma_pages_fit, paged_spans, runs, runs_hold_whole_pages, span_bytes, Span,
};
use crate::qwen35::dflash::{DraftLayer, DIM, DK};
use crate::qwen35::geometry::{elected_shapes_share_scratch, Geometry};
use crate::qwen35::graph::{Graph, Layer, Mixer, MAX_PAGES};

verus! {

pub open spec fn flag_text(flag: bool) -> Seq<char> {
    if flag { "true"@ } else { "false"@ }
}

/// The shape, spelt out.
pub open spec fn shape_text(g: Geometry) -> Seq<char> {
    "Geometry { width: "@ + decimal(g.width as nat) + ", ff: "@ + decimal(g.ff as nat)
        + ", layers: "@ + decimal(g.layers as nat) + ", heads: "@ + decimal(g.heads as nat)
        + ", kv_heads: "@ + decimal(g.kv_heads as nat) + ", value_heads: "@
        + decimal(g.value_heads as nat) + " }"@
}

fn push_number(out: &mut String, n: usize)
    ensures
        final(out)@ == old(out)@ + decimal(n as nat),
{
    let number = decimal_text(n as u64);
    out.append(number.as_str());
}

fn push_flag(out: &mut String, flag: bool)
    ensures
        final(out)@ == old(out)@ + flag_text(flag),
{
    if flag {
        out.append("true");
    } else {
        out.append("false");
    }
}

#[verifier::spinoff_prover]
#[verifier::rlimit(60)]
fn push_shape(out: &mut String, g: Geometry)
    ensures
        final(out)@ == old(out)@ + shape_text(g),
{
    let ghost before = out@;
    out.append("Geometry { width: ");
    push_number(out, g.width);
    out.append(", ff: ");
    push_number(out, g.ff);
    out.append(", layers: ");
    push_number(out, g.layers);
    out.append(", heads: ");
    push_number(out, g.heads);
    out.append(", kv_heads: ");
    push_number(out, g.kv_heads);
    out.append(", value_heads: ");
    push_number(out, g.value_heads);
    out.append(" }");
    assert(out@ =~= before + shape_text(g));
}

impl Graph {
    /// What every decoder of this family names of itself.
    pub open spec fn common_text(&self, platform: Seq<char>) -> Seq<char> {
        "qwen-metal-v1:"@ + shape_text(self.geometry) + ":mlx="@ + flag_text(
            self.mlx,
        ) + ":ctx="@ + decimal(self.context as nat) + ":mtp="@ + flag_text(
            self.mtp is Some,
        ) + ":dflash="@ + flag_text(self.dflash is Some) + ":eps="@ + decimal(self.eps as nat)
            + ":rope="@ + decimal(self.rope as nat) + ":rotary="@ + decimal(self.rotary as nat)
            + ":platform="@ + platform
    }

    /// What the lanes add: arithmetic that changes a recurrent state must
    /// never read another arithmetic's checkpoints, not even after a restart.
    pub open spec fn lane_text(&self) -> Seq<char> {
        (if self.splash {
            ":splash-packed-v1:bf16-draft:stable-prefix-attention"@
        } else {
            Seq::<char>::empty()
        }) + (if self.bonsai is Some {
            ":bonsai-ternary-f32-v1"@ + if self.bonsai_prefill() {
                ":phase-local-m5-prefill-v2"@
            } else {
                Seq::<char>::empty()
            }
        } else {
            Seq::<char>::empty()
        }) + (if self.ternary {
            ":bonsai-ptq1-gguf-f16-v1"@
        } else {
            Seq::<char>::empty()
        }) + (if self.affine_prefill() {
            ":affine-cold-text-prefill512-v1"@
                + ":sequence-local-decode-attention-v1"@
                + ":phase-local-affine-f32-v1"@
        } else {
            Seq::<char>::empty()
        })
    }

    pub open spec fn layout_text(&self, platform: Seq<char>) -> Seq<char> {
        self.common_text(platform) + self.lane_text()
    }

    /// The checkpoint format, as it enters the durable namespace.
    pub fn checkpoint_layout(&self, platform: &str) -> (r: String)
        ensures
            r@ == self.layout_text(platform@),
    {
        let mut out = self.common_layout(platform);
        self.push_lanes(&mut out);
        out
    }

    fn common_layout(&self, platform: &str) -> (r: String)
        ensures
            r@ == self.common_text(platform@),
    {
        let mut out = "qwen-metal-v1:".to_owned();
        push_shape(&mut out, self.geometry);
        out.append(":mlx=");
        push_flag(&mut out, self.mlx);
        out.append(":ctx=");
        push_number(&mut out, self.context);
        out.append(":mtp=");
        push_flag(&mut out, self.mtp.is_some());
        out.append(":dflash=");
        push_flag(&mut out, self.dflash.is_some());
        out.append(":eps=");
        push_number(&mut out, self.eps as usize);
        out.append(":rope=");
        push_number(&mut out, self.rope as usize);
        out.append(":rotary=");
        push_number(&mut out, self.rotary);
        out.append(":platform=");
        out.append(platform);
        out
    }

    fn push_lanes(&self, out: &mut String)
        ensures
            final(out)@ == old(out)@ + self.lane_text(),
    {
        let ghost before = out@;
        if self.splash {
            out.append(":splash-packed-v1:bf16-draft:stable-prefix-attention");
        }
        if self.bonsai.is_some() {
            out.append(":bonsai-ternary-f32-v1");
            if self.stable_bonsai_prefill() {
                out.append(":phase-local-m5-prefill-v2");
            }
        }
        if self.ternary {
            out.append(":bonsai-ptq1-gguf-f16-v1");
        }
        if self.stable_affine_prefill() {
            out.append(":affine-cold-text-prefill512-v1");
            out.append(":sequence-local-decode-attention-v1");
            out.append(":phase-local-affine-f32-v1");
        }
        assert(out@ =~= before + self.lane_text());
    }
}

proof fn lemma_suffix_lengths()
    ensures
        ":phase-local-m5-prefill-v2"@.len() > 0,
        ":affine-cold-text-prefill512-v1"@.len() > 0,
{
    reveal_strlit(":phase-local-m5-prefill-v2");
    reveal_strlit(":affine-cold-text-prefill512-v1");
}

/// A device that changes the prompt arithmetic of the native ternary lane, or
/// pins that of the affine lane, never shares a namespace with one that does
/// not: their layouts differ even where everything else agrees.
pub proof fn prompt_arithmetic_changes_the_layout(a: Graph, b: Graph, platform: Seq<char>)
    requires
        a == (Graph { accelerated: true, ..b }),
        !b.accelerated,
        a.bonsai_prefill() || a.affine_prefill(),
    ensures
        a.layout_text(platform) != b.layout_text(platform),
{
    assert(a.geometry == b.geometry && a.mlx == b.mlx && a.context == b.context && a.mtp == b.mtp
        && a.dflash == b.dflash && a.eps == b.eps && a.rope == b.rope && a.rotary == b.rotary);
    lemma_same_common(a, b, platform);
    lemma_longer_lane(a, b);
    let x = a.common_text(platform);
    assert(a.layout_text(platform).len() == x.len() + a.lane_text().len());
    assert(b.layout_text(platform).len() == x.len() + b.lane_text().len());
}

proof fn lemma_same_common(a: Graph, b: Graph, platform: Seq<char>)
    requires
        a.geometry == b.geometry,
        a.mlx == b.mlx,
        a.context == b.context,
        a.mtp == b.mtp,
        a.dflash == b.dflash,
        a.eps == b.eps,
        a.rope == b.rope,
        a.rotary == b.rotary,
    ensures
        a.common_text(platform) == b.common_text(platform),
{
}

proof fn lemma_longer_lane(a: Graph, b: Graph)
    requires
        a.mlx == b.mlx,
        a.splash == b.splash,
        a.bonsai == b.bonsai,
        a.ternary == b.ternary,
        a.geometry == b.geometry,
        a.accelerated,
        !b.accelerated,
        a.bonsai_prefill() || a.affine_prefill(),
    ensures
        a.lane_text().len() > b.lane_text().len(),
{
    lemma_suffix_lengths();
}

/// Bytes of one page of keys or values.
pub open spec fn page_size(g: &Graph) -> int {
    16 * g.geometry.kv_heads * 256 * if g.bonsai is Some { 4int } else { 2 }
}

/// Bytes of one page in the next-token block, which is never ternary.
pub open spec fn block_page_size(g: &Graph) -> int {
    16 * g.geometry.kv_heads * 256 * 2
}

/// Page runs of the attention layers, keys before values.
pub open spec fn attention_spans(layers: Seq<Layer>, blocks: Seq<u32>, bytes: int) -> Seq<Span>
    decreases layers.len(),
{
    if layers.len() == 0 {
        Seq::empty()
    } else {
        let before = attention_spans(layers.drop_last(), blocks, bytes);
        match layers.last().mixer {
            Mixer::Full(a) => before + runs(a.keys, blocks, bytes) + runs(a.values, blocks, bytes),
            Mixer::Linear(_) => before,
        }
    }
}

/// The recurrent and convolution state of one slot, layer by layer.
pub open spec fn state_spans(g: &Graph, slot: int, n: int) -> Seq<Span>
    decreases n,
{
    if n <= 0 {
        Seq::empty()
    } else {
        let at = (n - 1) * g.state_slots + slot;
        let state = g.geometry.state_size() * 4;
        let conv = g.geometry.conv_width() * 12;
        state_spans(g, slot, n - 1).push(
            Span { buffer: g.state, offset: (at * state) as u64, len: state as u64 },
        ).push(Span { buffer: g.conv, offset: (at * conv) as u64, len: conv as u64 })
    }
}

/// The hidden row that the next-token block waits with, and its pages.
pub open spec fn block_spans(g: &Graph, slot: int, blocks: Seq<u32>) -> Seq<Span> {
    match g.mtp {
        Some(d) => {
            let len = g.geometry.width * 4;
            seq![Span { buffer: d.pending, offset: (slot * len) as u64, len: len as u64 }]
                + attention_spans(seq![d.layer], blocks, block_page_size(g))
        },
        None => Seq::empty(),
    }
}

/// Bytes of one slot's ring of keys or values.
pub open spec fn ring_size(tokens: int) -> int {
    tokens * 8 * 128 * 2
}

/// The slot's conditioning rings in the first `n` draft layers.
pub open spec fn ring_spans(layers: Seq<DraftLayer>, slot: int, bytes: int, n: int) -> Seq<Span>
    decreases n,
{
    if n <= 0 {
        Seq::empty()
    } else {
        let l = layers[n - 1];
        ring_spans(layers, slot, bytes, n - 1).push(
            Span { buffer: l.keys, offset: (slot * bytes) as u64, len: bytes as u64 },
        ).push(Span { buffer: l.values, offset: (slot * bytes) as u64, len: bytes as u64 })
    }
}

pub open spec fn draft_spans(g: &Graph, slot: int) -> Seq<Span> {
    match g.dflash {
        Some(d) => ring_spans(d.layers@, slot, ring_size(d.ring_tokens as int), d.layers.len() as int),
        None => Seq::empty(),
    }
}

/// Everything that a checkpoint of one slot holds.
pub open spec fn checkpoint_spans(g: &Graph, slot: int, blocks: Seq<u32>) -> Seq<Span> {
    attention_spans(g.layers@, blocks, page_size(g)) + state_spans(g, slot, g.geometry.linear())
        + block_spans(g, slot, blocks) + draft_spans(g, slot)
}

fn push_pages(out: &mut Vec<Span>, layer: &Layer, blocks: &Vec<u32>, bytes: u64)
    requires
        0 < bytes <= 0xffff_ffff,
    ensures
        final(out)@ == old(out)@ + match layer.mixer {
            Mixer::Full(a) => runs(a.keys, blocks@, bytes as int) + runs(
                a.values,
                blocks@,
                bytes as int,
            ),
            Mixer::Linear(_) => Seq::<Span>::empty(),
        },
{
    let ghost before = out@;
    proof {
        lemma_pages_fit(blocks@, bytes as int);
    }
    match layer.mixer {
        Mixer::Full(a) => {
            let mut keys = paged_spans(a.keys, blocks, bytes);
            let mut values = paged_spans(a.values, blocks, bytes);
            out.append(&mut keys);
            out.append(&mut values);
            assert(out@ =~= before + (runs(a.keys, blocks@, bytes as int) + runs(
                a.values,
                blocks@,
                bytes as int,
            )));
        },
        Mixer::Linear(_) => {
            assert(out@ =~= before + Seq::<Span>::empty());
        },
    }
}

impl Graph {
    /// The byte runs of a checkpoint in state slot `slot` with these pages.
    pub fn cold_spans(&self, slot: usize, blocks: &Vec<u32>) -> (r: Vec<Span>)
        requires
            self.wf(),
            slot < self.state_slots,
        ensures
            r@ == checkpoint_spans(self, slot as int, blocks@),
    {
        let mut out: Vec<Span> = Vec::new();
        let bytes: u64 = (BLOCK_TOKENS * self.geometry.kv_heads * 256 * if self.bonsai.is_some() {
            4
        } else {
            2
        }) as u64;
        let mut i: usize = 0;
        assert(self.layers@.take(0) =~= Seq::<Layer>::empty());
        while i < self.layers.len()
            invariant
                i <= self.layers.len(),
                0 < bytes <= 65536,
                bytes == page_size(self),
                out@ == attention_spans(self.layers@.take(i as int), blocks@, bytes as int),
            decreases self.layers.len() - i,
        {
            let ghost next = self.layers@.take(i + 1);
            proof {
                assert(next.drop_last() =~= self.layers@.take(i as int));
                assert(next.last() == self.layers[i as int]);
            }
            push_pages(&mut out, &self.layers[i], blocks, bytes);
            assert(out@ =~= attention_spans(next, blocks@, bytes as int));
            i = i + 1;
        }
        assert(self.layers@.take(self.layers.len() as int) =~= self.layers@);
        let ghost pages = attention_spans(self.layers@, blocks@, page_size(self));
        self.push_states(&mut out, slot);
        self.push_block(&mut out, slot, blocks);
        self.push_rings(&mut out, slot);
        assert(out@ =~= checkpoint_spans(self, slot as int, blocks@));
        out
    }

    fn push_states(&self, out: &mut Vec<Span>, slot: usize)
        requires
            self.wf(),
            slot < self.state_slots,
        ensures
            final(out)@ == old(out)@ + state_spans(self, slot as int, self.geometry.linear()),
    {
        proof {
            elected_shapes_share_scratch(self.geometry);
        }
        let ghost before = out@;
        let linear: usize = self.geometry.linear_layers();
        let state: u64 = self.geometry.state() as u64 * 4;
        let conv: u64 = self.geometry.conv() as u64 * 12;
        let mut n: usize = 0;
        assert(out@ =~= before + state_spans(self, slot as int, 0));
        while n < linear
            invariant
                n <= linear <= 48,
                linear == self.geometry.linear(),
                slot < self.state_slots <= 1536,
                state == self.geometry.state_size() * 4,
                conv == self.geometry.conv_width() * 12,
                state <= 3145728,
                conv <= 122880,
                out@ == before + state_spans(self, slot as int, n as int),
            decreases linear - n,
        {
            proof {
                lemma_product_bound(n as int, self.state_slots as int, 48, 1536);
            }
            let at: u64 = (n * self.state_slots + slot) as u64;
            proof {
                lemma_product_bound(at as int, state as int, 75264, 3145728);
                lemma_product_bound(at as int, conv as int, 75264, 122880);
            }
            out.push(Span { buffer: self.state, offset: at * state, len: state });
            out.push(Span { buffer: self.conv, offset: at * conv, len: conv });
            n = n + 1;
            assert(out@ =~= before + state_spans(self, slot as int, n as int));
        }
    }

    fn push_block(&self, out: &mut Vec<Span>, slot: usize, blocks: &Vec<u32>)
        requires
            self.wf(),
            slot < self.state_slots,
        ensures
            final(out)@ == old(out)@ + block_spans(self, slot as int, blocks@),
    {
        let ghost before = out@;
        match &self.mtp {
            Some(d) => {
                let len: u64 = self.geometry.width as u64 * 4;
                let bytes: u64 = (BLOCK_TOKENS * self.geometry.kv_heads * 256 * 2) as u64;
                proof {
                    lemma_product_bound(slot as int, len as int, 1536, 20480);
                    let one = seq![d.layer];
                    assert(one.drop_last() =~= Seq::<Layer>::empty());
                    assert(one.last() == d.layer);
                }
                out.push(Span { buffer: d.pending, offset: slot as u64 * len, len });
                push_pages(out, &d.layer, blocks, bytes);
                assert(attention_spans(seq![d.layer].drop_last(), blocks@, bytes as int) =~= Seq::<Span>::empty());
                assert(out@ =~= before + block_spans(self, slot as int, blocks@));
            },
            None => {
                assert(out@ =~= before + block_spans(self, slot as int, blocks@));
            },
        }
    }

    fn push_rings(&self, out: &mut Vec<Span>, slot: usize)
        requires
            self.wf(),
            slot < self.state_slots,
        ensures
            final(out)@ == old(out)@ + draft_spans(self, slot as int),
    {
        let ghost before = out@;
        match &self.dflash {
            Some(d) => {
                let bytes: u64 = (d.ring_tokens * DK * DIM * 2) as u64;
                let mut n: usize = 0;
                assert(out@ =~= before + ring_spans(d.layers@, slot as int, bytes as int, 0));
                while n < d.layers.len()
                    invariant
                        n <= d.layers.len(),
                        slot < 1536,
                        bytes <= 2112 * 2048,
                        out@ == before + ring_spans(d.layers@, slot as int, bytes as int, n as int),
                    decreases d.layers.len() - n,
                {
                    proof {
                        lemma_product_bound(slot as int, bytes as int, 1536, 2112int * 2048);
                    }
                    let at: u64 = slot as u64 * bytes;
                    out.push(Span { buffer: d.layers[n].keys, offset: at, len: bytes });
                    out.push(Span { buffer: d.layers[n].values, offset: at, len: bytes });
                    n = n + 1;
                    assert(out@ =~= before + ring_spans(d.layers@, slot as int, bytes as int, n as int));
                }
            },
            None => {
                assert(out@ =~= before + draft_spans(self, slot as int));
            },
        }
    }
}

/// Attention layers among these.
pub open spec fn attending(layers: Seq<Layer>) -> int
    decreases layers.len(),
{
    if layers.len() == 0 {
        0
    } else {
        attending(layers.drop_last()) + if layers.last().mixer is Full { 1int } else { 0 }
    }
}

/// Bytes of a checkpoint with `pages` pages.
pub open spec fn checkpoint_bytes(g: &Graph, pages: int) -> int {
    attending(g.layers@) * 2 * (pages * page_size(g)) + g.geometry.linear() * (g.geometry.state_size() * 4
        + g.geometry.conv_width() * 12) + (if g.mtp is Some {
        g.geometry.width * 4 + 2 * (pages * block_page_size(g))
    } else {
        0
    }) + (match g.dflash {
        Some(d) => d.layers.len() * 2 * ring_size(d.ring_tokens as int),
        None => 0,
    })
}

proof fn lemma_bytes_add(a: Seq<Span>, b: Seq<Span>)
    ensures
        span_bytes(a + b) == span_bytes(a) + span_bytes(b),
    decreases b.len(),
{
    if b.len() == 0 {
        assert(a + b =~= a);
    } else {
        assert((a + b).drop_last() =~= a + b.drop_last());
        assert((a + b).last() == b.last());
        lemma_bytes_add(a, b.drop_last());
    }
}

proof fn lemma_attention_bytes(layers: Seq<Layer>, blocks: Seq<u32>, bytes: int)
    requires
        0 < bytes <= 0xffff_ffff,
    ensures
        span_bytes(attention_spans(layers, blocks, bytes)) == attending(layers) * 2 * (blocks.len()
            * bytes),
        0 <= attending(layers) <= layers.len(),
    decreases layers.len(),
{
    if layers.len() > 0 {
        let a = attending(layers.drop_last());
        let b = blocks.len() * bytes;
        let before = attention_spans(layers.drop_last(), blocks, bytes);
        lemma_attention_bytes(layers.drop_last(), blocks, bytes);
        match layers.last().mixer {
            Mixer::Full(f) => {
                lemma_pages_fit(blocks, bytes);
                runs_hold_whole_pages(f.keys, blocks, bytes);
                runs_hold_whole_pages(f.values, blocks, bytes);
                lemma_bytes_add(before, runs(f.keys, blocks, bytes));
                lemma_bytes_add(
                    before + runs(f.keys, blocks, bytes),
                    runs(f.values, blocks, bytes),
                );
                assert((a + 1) * 2 * b == a * 2 * b + b + b) by (nonlinear_arith);
            },
            Mixer::Linear(_) => {},
        }
    } else {
        assert(0int * 2 * (blocks.len() * bytes) == 0) by (nonlinear_arith);
    }
}

proof fn lemma_state_bytes(g: &Graph, slot: int, n: int)
    requires
        g.wf(),
        0 <= n,
    ensures
        span_bytes(state_spans(g, slot, n)) == n * (g.geometry.state_size() * 4 + g.geometry.conv_width()
            * 12),
    decreases n,
{
    elected_shapes_share_scratch(g.geometry);
    let each = g.geometry.state_size() * 4 + g.geometry.conv_width() * 12;
    if n > 0 {
        lemma_state_bytes(g, slot, n - 1);
        assert(n * each == (n - 1) * each + each) by (nonlinear_arith);
        let now = state_spans(g, slot, n);
        let before = state_spans(g, slot, n - 1);
        lemma_bytes_push(before, now[before.len() as int]);
        lemma_bytes_push(before.push(now[before.len() as int]), now.last());
        assert(now =~= before.push(now[before.len() as int]).push(now.last()));
    } else {
        assert(0 * each == 0) by (nonlinear_arith);
    }
}

proof fn lemma_ring_bytes(layers: Seq<DraftLayer>, slot: int, bytes: int, n: int)
    requires
        0 <= bytes <= 0xffff_ffff,
        0 <= n,
    ensures
        span_bytes(ring_spans(layers, slot, bytes, n)) == n * 2 * bytes,
    decreases n,
{
    if n > 0 {
        lemma_ring_bytes(layers, slot, bytes, n - 1);
        assert(n * 2 * bytes == (n - 1) * 2 * bytes + bytes + bytes) by (nonlinear_arith);
        let now = ring_spans(layers, slot, bytes, n);
        let before = ring_spans(layers, slot, bytes, n - 1);
        lemma_bytes_push(before, now[before.len() as int]);
        lemma_bytes_push(before.push(now[before.len() as int]), now.last());
        assert(now =~= before.push(now[before.len() as int]).push(now.last()));
    } else {
        assert(0int * 2 * bytes == 0) by (nonlinear_arith);
    }
}

/// The size of a checkpoint depends on the number of its pages alone: not on
/// where they lie, nor on the slot.
pub proof fn checkpoint_size_is_pages_and_state(g: &Graph, slot: int, blocks: Seq<u32>)
    requires
        g.wf(),
    ensures
        span_bytes(checkpoint_spans(g, slot, blocks)) == checkpoint_bytes(g, blocks.len() as int),
{
    let pages = blocks.len() as int;
    let a = attention_spans(g.layers@, blocks, page_size(g));
    let b = state_spans(g, slot, g.geometry.linear());
    let c = block_spans(g, slot, blocks);
    let d = draft_spans(g, slot);
    lemma_attention_bytes(g.layers@, blocks, page_size(g));
    lemma_state_bytes(g, slot, g.geometry.linear());
    lemma_bytes_add(a, b);
    lemma_bytes_add(a + b, c);
    lemma_bytes_add(a + b + c, d);
    match g.mtp {
        Some(m) => {
            let len = g.geometry.width * 4;
            let head = Span { buffer: m.pending, offset: (slot * len) as u64, len: len as u64 };
            let one = seq![m.layer];
            lemma_attention_bytes(one, blocks, block_page_size(g));
            assert(one.drop_last() =~= Seq::<Layer>::empty());
            assert(attending(one.drop_last()) == 0);
            assert(attending(one) == 1);
            lemma_bytes_add(seq![head], attention_spans(one, blocks, block_page_size(g)));
            assert(seq![head] =~= Seq::<Span>::empty().push(head));
            lemma_bytes_push(Seq::empty(), head);
            assert(1int * 2 * (pages * block_page_size(g)) == 2 * (pages * block_page_size(g)))
                by (nonlinear_arith);
        },
        None => {},
    }
    match g.dflash {
        Some(f) => {
            lemma_ring_bytes(
                f.layers@,
                slot,
                ring_size(f.ring_tokens as int),
                f.layers.len() as int,
            );
        },
        None => {},
    }
}

/// Attention layers never outnumber the layers.
proof fn lemma_attending(layers: Seq<Layer>)
    ensures
        0 <= attending(layers) <= layers.len(),
    decreases layers.len(),
{
    if layers.len() > 0 {
        lemma_attending(layers.drop_last());
    }
}

impl Graph {
    /// Bytes of a checkpoint with `pages` pages.
    pub fn checkpoint_size(&self, pages: usize) -> (r: u64)
        requires
            self.wf(),
            pages <= MAX_PAGES,
        ensures
            r == checkpoint_bytes(self, pages as int),
            r <= 0x10_0000_0000_0000,
    {
        proof {
            elected_shapes_share_scratch(self.geometry);
            lemma_attending(self.layers@);
        }
        let mut full: u64 = 0;
        let mut i: usize = 0;
        assert(self.layers@.take(0) =~= Seq::<Layer>::empty());
        while i < self.layers.len()
            invariant
                i <= self.layers.len() <= 64,
                full == attending(self.layers@.take(i as int)),
                full <= i,
            decreases self.layers.len() - i,
        {
            let ghost next = self.layers@.take(i + 1);
            proof {
                assert(next.drop_last() =~= self.layers@.take(i as int));
                assert(next.last() == self.layers[i as int]);
            }
            if let Mixer::Full(_) = self.layers[i].mixer {
                full = full + 1;
            }
            i = i + 1;
        }
        assert(self.layers@.take(self.layers.len() as int) =~= self.layers@);
        let page: u64 = (BLOCK_TOKENS * self.geometry.kv_heads * 256 * if self.bonsai.is_some() {
            4
        } else {
            2
        }) as u64;
        proof {
            lemma_product_bound(pages as int, page as int, 0x1000_0000, 65536);
            lemma_product_bound(full as int * 2, pages * page, 128, 0x1000_0000_0000);
        }
        let mut bytes: u64 = full * 2 * (pages as u64 * page);
        let state: u64 = self.geometry.state() as u64 * 4 + self.geometry.conv() as u64 * 12;
        let linear: u64 = self.geometry.linear_layers() as u64;
        proof {
            lemma_product_bound(linear as int, state as int, 48, 3268608);
        }
        bytes = bytes + linear * state;
        if self.mtp.is_some() {
            let block: u64 = (BLOCK_TOKENS * self.geometry.kv_heads * 256 * 2) as u64;
            proof {
                lemma_product_bound(pages as int, block as int, 0x1000_0000, 65536);
            }
            bytes = bytes + self.geometry.width as u64 * 4 + 2 * (pages as u64 * block);
        }
        match &self.dflash {
            Some(d) => {
                let ring: u64 = (d.ring_tokens * DK * DIM * 2) as u64;
                proof {
                    lemma_product_bound(10, ring as int, 10, 2112int * 2048);
                    assert(d.layers.len() * 2 * ring == 10 * ring);
                }
                bytes = bytes + d.layers.len() as u64 * 2 * ring;
            },
            None => {},
        }
        bytes
    }
}

} // verus!
