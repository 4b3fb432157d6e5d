//! Attaching a next-token block, in the target's file or beside it. It shares
//! the target's embeddings, head and page table.
use vstd::prelude::*;
use crate::arith::{lemma_product_bound, BLOCK_TOKENS, MAX_ROWS};
use crate::error::{Fault, MetalError};
use crate::header::{
    based, block_name, expect, expected, far_block_text, first_misfit, is_named, placed, resident_bytes,
    schema, Entry, Expected, Header, ANY_FORMAT,
};
use crate::program::{list1, list2, list3, Buffer, Weight};
use crate::qwen35::elect::{moe_fault, validate_experts};
use crate::qwen35::geometry::Geometry;
use crate::qwen35::graph::{layer_shaped, FullAttention, Graph, Layer, Mixer, Verify};
use crate::qwen35::moe::Experts;
use crate::qwen35::mtp::Mtp;
use crate::qwen35::state::Qwen35;

verus! {

/// Bytes that a companion adds.
#[derive(Clone, Copy, Debug, PartialEq, Eq, Structural)]
pub struct Added {
    pub weight_bytes: u128,
    pub kv_bytes: u64,
}

/// Attention, norms and feed-forward of block `i`.
pub open spec fn block_entries(g: Geometry, i: int) -> Seq<Expected> {
    let width = g.width as u64;
    let ff = g.ff as u64;
    let moe = g.is_moe();
    seq![
        expected(block_name(i, "attn_norm.weight"@), seq![width], ANY_FORMAT, true),
        expected(block_name(i, "post_attention_norm.weight"@), seq![width], ANY_FORMAT, true),
        expected(block_name(i, "attn_q.weight"@), seq![width, (g.heads * 512) as u64], ANY_FORMAT, true),
        expected(block_name(i, "attn_k.weight"@), seq![width, (g.kv_heads * 256) as u64], ANY_FORMAT, true),
        expected(block_name(i, "attn_v.weight"@), seq![width, (g.kv_heads * 256) as u64], ANY_FORMAT, true),
        expected(block_name(i, "attn_output.weight"@), seq![(g.heads * 256) as u64, width], ANY_FORMAT, true),
        expected(block_name(i, "attn_q_norm.weight"@), seq![256u64], 0, true),
        expected(block_name(i, "attn_k_norm.weight"@), seq![256u64], 0, true),
        expected(
            block_name(i, if moe { "ffn_gate_shexp.weight"@ } else { "ffn_gate.weight"@ }),
            seq![width, ff],
            ANY_FORMAT,
            true,
        ),
        expected(
            block_name(i, if moe { "ffn_up_shexp.weight"@ } else { "ffn_up.weight"@ }),
            seq![width, ff],
            ANY_FORMAT,
            true,
        ),
        expected(
            block_name(i, if moe { "ffn_down_shexp.weight"@ } else { "ffn_down.weight"@ }),
            seq![ff, width],
            ANY_FORMAT,
            true,
        ),
    ]
}

/// The experts of block `i`, where there are any.
pub open spec fn block_experts(g: Geometry, i: int) -> Seq<Expected> {
    if g.is_moe() {
        seq![
            expected(block_name(i, "ffn_gate_inp.weight"@), seq![2048u64, 256], ANY_FORMAT, true),
            expected(block_name(i, "ffn_gate_inp_shexp.weight"@), seq![2048u64], ANY_FORMAT, true),
            expected(block_name(i, "ffn_gate_exps.weight"@), seq![2048u64, 512, 256], ANY_FORMAT, true),
            expected(block_name(i, "ffn_up_exps.weight"@), seq![2048u64, 512, 256], ANY_FORMAT, true),
            expected(block_name(i, "ffn_down_exps.weight"@), seq![512u64, 2048, 256], ANY_FORMAT, true),
        ]
    } else {
        Seq::empty()
    }
}

/// What combines the token and the hidden row.
pub open spec fn combiner_entries(g: Geometry, i: int) -> Seq<Expected> {
    let width = g.width as u64;
    seq![
        expected(
            block_name(i, "nextn.eh_proj.weight"@),
            seq![(g.width * 2) as u64, width],
            ANY_FORMAT,
            true,
        ),
        expected(block_name(i, "nextn.enorm.weight"@), seq![width], ANY_FORMAT, true),
        expected(block_name(i, "nextn.hnorm.weight"@), seq![width], ANY_FORMAT, true),
        expected(block_name(i, "nextn.shared_head_norm.weight"@), seq![width], ANY_FORMAT, true),
    ]
}

pub open spec fn block_head(g: Geometry, i: int) -> Seq<Expected> {
    block_entries(g, i) + block_experts(g, i)
}

pub open spec fn block_schema(g: Geometry, i: int) -> Seq<Expected> {
    block_head(g, i) + combiner_entries(g, i)
}

fn push_block(list: &mut Vec<Entry>, g: Geometry, i: u64)
    requires
        g.elected(),
    ensures
        schema(final(list)@) == schema(old(list)@) + block_entries(g, i as int),
{
    let ghost before = schema(list@);
    let width: u64 = g.width as u64;
    let ff: u64 = g.ff as u64;
    let q: u64 = (g.heads * 512) as u64;
    let kv: u64 = (g.kv_heads * 256) as u64;
    let o: u64 = (g.heads * 256) as u64;
    let moe = g.moe();
    expect(list, far_block_text(i, "attn_norm.weight"), list1(width), ANY_FORMAT, true);
    expect(list, far_block_text(i, "post_attention_norm.weight"), list1(width), ANY_FORMAT, true);
    expect(list, far_block_text(i, "attn_q.weight"), list2(width, q), ANY_FORMAT, true);
    expect(list, far_block_text(i, "attn_k.weight"), list2(width, kv), ANY_FORMAT, true);
    expect(list, far_block_text(i, "attn_v.weight"), list2(width, kv), ANY_FORMAT, true);
    expect(list, far_block_text(i, "attn_output.weight"), list2(o, width), ANY_FORMAT, true);
    expect(list, far_block_text(i, "attn_q_norm.weight"), list1(256), 0, true);
    expect(list, far_block_text(i, "attn_k_norm.weight"), list1(256), 0, true);
    let gate = if moe { "ffn_gate_shexp.weight" } else { "ffn_gate.weight" };
    let up = if moe { "ffn_up_shexp.weight" } else { "ffn_up.weight" };
    let down = if moe { "ffn_down_shexp.weight" } else { "ffn_down.weight" };
    expect(list, far_block_text(i, gate), list2(width, ff), ANY_FORMAT, true);
    expect(list, far_block_text(i, up), list2(width, ff), ANY_FORMAT, true);
    expect(list, far_block_text(i, down), list2(ff, width), ANY_FORMAT, true);
    assert(schema(list@) =~= before + block_entries(g, i as int));
}

fn push_experts(list: &mut Vec<Entry>, g: Geometry, i: u64)
    ensures
        schema(final(list)@) == schema(old(list)@) + block_experts(g, i as int),
{
    let ghost before = schema(list@);
    if g.moe() {
        expect(list, far_block_text(i, "ffn_gate_inp.weight"), list2(2048, 256), ANY_FORMAT, true);
        expect(list, far_block_text(i, "ffn_gate_inp_shexp.weight"), list1(2048), ANY_FORMAT, true);
        expect(list, far_block_text(i, "ffn_gate_exps.weight"), list3(2048, 512, 256), ANY_FORMAT, true);
        expect(list, far_block_text(i, "ffn_up_exps.weight"), list3(2048, 512, 256), ANY_FORMAT, true);
        expect(list, far_block_text(i, "ffn_down_exps.weight"), list3(512, 2048, 256), ANY_FORMAT, true);
    }
    assert(schema(list@) =~= before + block_experts(g, i as int));
}

fn push_combiner(list: &mut Vec<Entry>, g: Geometry, i: u64)
    requires
        g.elected(),
    ensures
        schema(final(list)@) == schema(old(list)@) + combiner_entries(g, i as int),
{
    let ghost before = schema(list@);
    let width: u64 = g.width as u64;
    let pair: u64 = (g.width * 2) as u64;
    expect(list, far_block_text(i, "nextn.eh_proj.weight"), list2(pair, width), ANY_FORMAT, true);
    expect(list, far_block_text(i, "nextn.enorm.weight"), list1(width), ANY_FORMAT, true);
    expect(list, far_block_text(i, "nextn.hnorm.weight"), list1(width), ANY_FORMAT, true);
    expect(list, far_block_text(i, "nextn.shared_head_norm.weight"), list1(width), ANY_FORMAT, true);
    assert(schema(list@) =~= before + combiner_entries(g, i as int));
}

/// Expert planes of the block, as they are stored.
pub open spec fn experts_of(h: &Header, list: Seq<Expected>, first: u32) -> Experts {
    Experts {
        router: based(placed(h, list, 11), first),
        shared_gate: based(placed(h, list, 12), first),
        gate: based(placed(h, list, 13), first),
        up: based(placed(h, list, 14), first),
        down: based(placed(h, list, 15), first),
    }
}

/// Places of the whole block.
pub open spec fn block_len(g: Geometry) -> int {
    15 + if g.is_moe() { 5int } else { 0 }
}

/// Bytes of the block's keys or values.
pub open spec fn block_kv(g: Geometry, pool: int) -> int {
    pool * (16 * g.kv_heads * 256 * 2)
}

/// The attached block.
pub open spec fn block_of(h: &Header, q: &Qwen35, i: int, first: u32, pool: int) -> Mtp {
    let g = q.graph.geometry;
    let list = block_schema(g, i);
    let n = block_len(g);
    let c = n - 4;
    let kv = block_kv(g, pool);
    Mtp {
        eh: based(placed(h, list, c), first),
        en: based(placed(h, list, c + 1), first),
        hn: based(placed(h, list, c + 2), first),
        head_norm: based(placed(h, list, c + 3), first),
        layer: Layer {
            norm: based(placed(h, list, 0), first),
            post_norm: based(placed(h, list, 1), first),
            mixer: Mixer::Full(
                FullAttention {
                    q: based(placed(h, list, 2), first),
                    k: based(placed(h, list, 3), first),
                    v: based(placed(h, list, 4), first),
                    o: based(placed(h, list, 5), first),
                    q_norm: based(placed(h, list, 6), first),
                    k_norm: based(placed(h, list, 7), first),
                    keys: Buffer { id: (first + n) as u32, len: kv as u64 },
                    values: Buffer { id: (first + n + 1) as u32, len: kv as u64 },
                },
            ),
            gate: based(placed(h, list, 8), first),
            up: based(placed(h, list, 9), first),
            down: based(placed(h, list, 10), first),
            moe: if g.is_moe() { Some(experts_of(h, list, first)) } else { None },
        },
        pending: Buffer {
            id: (first + n + 2) as u32,
            len: (q.graph.state_slots * (g.width * 4)) as u64,
        },
        h: Buffer { id: (first + n + 3) as u32, len: (q.graph.row_capacity * (g.width * 4)) as u64 },
        concat: Buffer { id: (first + n + 4) as u32, len: (q.graph.row_capacity * (g.width * 8)) as u64 },
        drafted: Buffer { id: (first + n + 5) as u32, len: (q.slots.len() * 32) as u64 },
    }
}

impl Qwen35 {
    /// Some saved prefix holds tokens.
    pub open spec fn saved_any(&self) -> bool {
        exists|i: int| 0 <= i < self.cache.len() && (#[trigger] self.cache[i]).history.len() > 0
    }

    pub fn any_saved(&self) -> (r: bool)
        ensures
            r == self.saved_any(),
    {
        let mut i: usize = 0;
        while i < self.cache.len()
            invariant
                i <= self.cache.len(),
                forall|j: int| 0 <= j < i ==> (#[trigger] self.cache[j]).history.len() == 0,
            decreases self.cache.len() - i,
        {
            if self.cache[i].history.len() > 0 {
                return true;
            }
            i = i + 1;
        }
        false
    }

    /// Why a next-token block is refused. A target without tensors of its
    /// own kind has no compatible block.
    pub open spec fn mtp_fault(&self, h: &Header, cold: bool) -> Option<Fault> {
        let g = self.graph.geometry;
        if self.graph.ternary || self.graph.mlx {
            Some(Fault::Companion)
        } else if self.uncommitted {
            Some(Fault::Uncommitted)
        } else if self.graph.mtp is Some || cold || self.used() || self.saved_any() {
            Some(Fault::Attached)
        } else if !(h.architecture matches Some(a) && a@ == (if g.is_moe() {
            "qwen35moe"@
        } else {
            "qwen35"@
        })) || h.unsigned("nextn_predict_layers"@) != Some(1u64) {
            Some(Fault::Architecture)
        } else if g.is_moe() && moe_fault(h, 0) is Some {
            moe_fault(h, 0)
        } else {
            match h.unsigned("block_count"@) {
                None => Some(Fault::Field { index: 3 }),
                Some(0) => Some(Fault::Field { index: 3 }),
                Some(n) => {
                    let list = block_schema(g, n - 1);
                    if first_misfit(h, block_head(g, n - 1), 0) is Some {
                        Some(
                            Fault::Tensor {
                                index: first_misfit(h, block_head(g, n - 1), 0)->0 as usize,
                            },
                        )
                    } else if g.is_moe() && !experts_of(h, list, 0).stored() {
                        Some(Fault::ExpertFormat)
                    } else if first_misfit(h, list, 0) is Some {
                        Some(Fault::Tensor { index: first_misfit(h, list, 0)->0 as usize })
                    } else {
                        None
                    }
                },
            }
        }
    }

    /// Attach a next-token block, once, before any prompt. Its allocations
    /// are numbered from `first`; `verify` holds the buffers of a
    /// verification pass, where there are none yet.
    pub fn attach_mtp(&mut self, h: &Header, cold: bool, pool: u32, first: u32, verify: Verify) -> (r: Result<
        Added,
        MetalError,
    >)
        requires
            old(self).wf(),
            first <= 0x7fff_ffff,
            0 < verify.live,
            verify.rows <= MAX_ROWS,
        ensures
            final(self).wf(),
            final(self).slots == old(self).slots,
            final(self).cache == old(self).cache,
            final(self).clock == old(self).clock,
            final(self).pending == old(self).pending,
            final(self).uncommitted == old(self).uncommitted,
            match old(self).mtp_fault(h, cold) {
                Some(f) => {
                    &&& r == Err::<Added, MetalError>(MetalError::Model(f))
                    &&& final(self).graph == old(self).graph
                },
                None => {
                    let g = old(self).graph.geometry;
                    let i = h.unsigned("block_count"@)->0 - 1;
                    &&& r matches Ok(added)
                    &&& added.weight_bytes == resident_bytes(h, block_schema(g, i), block_len(g))
                    &&& added.kv_bytes == 2 * block_kv(g, pool as int)
                    &&& final(self).graph == (Graph {
                        spec: if old(self).graph.spec is Some { old(self).graph.spec } else { Some(verify) },
                        mtp: Some(block_of(h, old(self), i, first, pool as int)),
                        ..old(self).graph
                    })
                },
            },
    {
        let g = self.graph.geometry;
        if self.graph.ternary || self.graph.mlx {
            return Err(MetalError::Model(Fault::Companion));
        }
        if self.uncommitted {
            return Err(MetalError::Model(Fault::Uncommitted));
        }
        if self.graph.mtp.is_some() || cold || self.any_history() || self.any_saved() {
            return Err(MetalError::Model(Fault::Attached));
        }
        let named = match &h.architecture {
            Some(a) => is_named(a, if g.moe() { "qwen35moe" } else { "qwen35" }),
            None => false,
        };
        let one = match h.get_unsigned("nextn_predict_layers") {
            Some(n) => n == 1,
            None => false,
        };
        if !named || !one {
            return Err(MetalError::Model(Fault::Architecture));
        }
        if g.moe() {
            match validate_experts(h, 0) {
                Ok(_) => {},
                Err(e) => {
                    return Err(e);
                },
            }
        }
        let i: u64 = match h.get_unsigned("block_count") {
            None => {
                return Err(MetalError::Model(Fault::Field { index: 3 }));
            },
            Some(n) => {
                if n == 0 {
                    return Err(MetalError::Model(Fault::Field { index: 3 }));
                }
                n - 1
            },
        };
        let mut list: Vec<Entry> = Vec::new();
        assert(schema(list@) =~= Seq::<Expected>::empty());
        push_block(&mut list, g, i);
        push_experts(&mut list, g, i);
        assert(schema(list@) =~= block_head(g, i as int));
        match h.check_fit(&list) {
            Ok(_) => {},
            Err(e) => {
                return Err(e);
            },
        }
        push_combiner(&mut list, g, i);
        assert(schema(list@) =~= block_schema(g, i as int));
        proof {
            lemma_block_dims(g, i as int);
            let view = schema(list@);
            assert forall|j: int| 0 <= j < list.len() implies 0 < (#[trigger] list[j]).dims.len() by {
                assert(view[j] == list[j]@);
            }
        }
        if g.moe() {
            match Experts::load_with(
                h.place(&list, 11),
                h.place(&list, 12),
                h.place(&list, 13),
                h.place(&list, 14),
                h.place(&list, 15),
            ) {
                Ok(_) => {},
                Err(e) => {
                    return Err(e);
                },
            }
        }
        let weight_bytes: u128 = match h.check_fit(&list) {
            Ok(b) => b,
            Err(e) => {
                return Err(e);
            },
        };
        let block = self.build_block(h, &list, first, pool, Ghost(i as int));
        let page: u64 = (BLOCK_TOKENS * g.kv_heads * 256 * 2) as u64;
        proof {
            lemma_product_bound(pool as int, page as int, 0xffff_ffff, 65536);
        }
        let kv: u64 = pool as u64 * page;
        if self.graph.spec.is_none() {
            self.graph.spec = Some(verify);
        }
        self.graph.mtp = Some(block);
        Ok(Added { weight_bytes, kv_bytes: 2 * kv })
    }

    fn build_block(&self, h: &Header, list: &Vec<Entry>, first: u32, pool: u32, Ghost(i): Ghost<int>) -> (r: Mtp)
        requires
            self.wf(),
            first <= 0x7fff_ffff,
            schema(list@) == block_schema(self.graph.geometry, i),
            forall|j: int| 0 <= j < list.len() ==> 0 < (#[trigger] list[j]).dims.len(),
        ensures
            r == block_of(h, self, i, first, pool as int),
            r.wf(self.graph.geometry),
    {
        let g = self.graph.geometry;
        let ghost view = schema(list@);
        assert(list.len() == block_len(g)) by {
            assert(view.len() == list.len());
        }
        let n: u32 = list.len() as u32;
        let c: usize = list.len() - 4;
        let page: u64 = (BLOCK_TOKENS * g.kv_heads * 256 * 2) as u64;
        let width: u64 = g.width as u64;
        let slots: u64 = self.graph.state_slots as u64;
        let rows: u64 = self.graph.row_capacity as u64;
        proof {
            lemma_product_bound(pool as int, page as int, 0xffff_ffff, 65536);
            lemma_product_bound(slots as int, width * 4, 1536, 20480);
            lemma_product_bound(rows as int, width * 4, 65536, 20480);
            lemma_product_bound(rows as int, width * 8, 65536, 40960);
        }
        let kv: u64 = pool as u64 * page;
        let experts = if g.moe() {
            Some(
                Experts {
                    router: rebase(h.place(list, 11), first),
                    shared_gate: rebase(h.place(list, 12), first),
                    gate: rebase(h.place(list, 13), first),
                    up: rebase(h.place(list, 14), first),
                    down: rebase(h.place(list, 15), first),
                },
            )
        } else {
            None
        };
        let layer = Layer {
            norm: rebase(h.place(list, 0), first),
            post_norm: rebase(h.place(list, 1), first),
            mixer: Mixer::Full(
                FullAttention {
                    q: rebase(h.place(list, 2), first),
                    k: rebase(h.place(list, 3), first),
                    v: rebase(h.place(list, 4), first),
                    o: rebase(h.place(list, 5), first),
                    q_norm: rebase(h.place(list, 6), first),
                    k_norm: rebase(h.place(list, 7), first),
                    keys: Buffer { id: first + n, len: kv },
                    values: Buffer { id: first + n + 1, len: kv },
                },
            ),
            gate: rebase(h.place(list, 8), first),
            up: rebase(h.place(list, 9), first),
            down: rebase(h.place(list, 10), first),
            moe: experts,
        };
        proof {
            let b = block_entries(g, i);
            assert(view[2] == b[2] && view[3] == b[3] && view[4] == b[4] && view[5] == b[5]);
            assert(view[8] == b[8] && view[9] == b[9] && view[10] == b[10]);
            assert(view[c as int] == combiner_entries(g, i)[0]);
            assert(layer_shaped(g, layer));
        }
        Mtp {
            eh: rebase(h.place(list, c), first),
            en: rebase(h.place(list, c + 1), first),
            hn: rebase(h.place(list, c + 2), first),
            head_norm: rebase(h.place(list, c + 3), first),
            layer,
            pending: Buffer { id: first + n + 2, len: slots * (width * 4) },
            h: Buffer { id: first + n + 3, len: rows * (width * 4) },
            concat: Buffer { id: first + n + 4, len: rows * (width * 8) },
            drafted: Buffer { id: first + n + 5, len: self.slots.len() as u64 * 32 },
        }
    }

    /// New row planes of the next-token block for ticks of `n` rows.
    pub fn reserve_mtp_rows(&mut self, n: usize, first: u32)
        requires
            old(self).wf(),
            n <= MAX_ROWS,
            first < u32::MAX,
        ensures
            final(self).wf(),
            final(self).slots == old(self).slots,
            final(self).cache == old(self).cache,
            final(self).clock == old(self).clock,
            final(self).pending == old(self).pending,
            final(self).uncommitted == old(self).uncommitted,
            final(self).graph == (Graph {
                mtp: match old(self).graph.mtp {
                    Some(d) => Some(
                        Mtp {
                            h: Buffer { id: first, len: (n * (old(self).graph.geometry.width * 4)) as u64 },
                            concat: Buffer {
                                id: (first + 1) as u32,
                                len: (n * (old(self).graph.geometry.width * 8)) as u64,
                            },
                            ..d
                        },
                    ),
                    None => None,
                },
                ..old(self).graph
            }),
    {
        match self.graph.mtp {
            Some(d) => {
                let width: u64 = self.graph.geometry.width as u64;
                proof {
                    lemma_product_bound(n as int, width * 4, 65536, 20480);
                    lemma_product_bound(n as int, width * 8, 65536, 40960);
                }
                let mut d = d;
                d.h = Buffer { id: first, len: n as u64 * (width * 4) };
                d.concat = Buffer { id: first + 1, len: n as u64 * (width * 8) };
                self.graph.mtp = Some(d);
            },
            None => {},
        }
    }
}

/// The plane with its allocation counted from `first`.
pub fn rebase(w: Weight, first: u32) -> (r: Weight)
    requires
        w.buffer.id + first <= u32::MAX,
    ensures
        r == based(w, first),
{
    Weight { buffer: Buffer { id: w.buffer.id + first, len: w.buffer.len }, ty: w.ty, k: w.k, n: w.n }
}

proof fn lemma_block_dims(g: Geometry, i: int)
    ensures
        block_schema(g, i).len() == block_len(g),
        forall|j: int|
            0 <= j < block_schema(g, i).len() ==> 0 < (#[trigger] block_schema(g, i)[j]).dims.len(),
{
    let all = block_schema(g, i);
    let a = block_entries(g, i);
    let b = block_experts(g, i);
    let c = combiner_entries(g, i);
    assert forall|j: int| 0 <= j < all.len() implies 0 < (#[trigger] all[j]).dims.len() by {
        if j < a.len() {
            assert(all[j] == a[j]);
        } else if j < a.len() + b.len() {
            assert(all[j] == b[j - a.len()]);
        } else {
            assert(all[j] == c[j - a.len() - b.len()]);
        }
    }
}

} // verus!
