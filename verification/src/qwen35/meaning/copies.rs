//! What saving and restoring a prefix moves.
use vstd::prelude::*;
use crate::arith::{lemma_ceil_div, lemma_product_bound};
use crate::device::effects::{group_hybrid, group_runs, group_shared, run};
use crate::device::names::{lemma_hybrid_names, lemma_shared_names};
use crate::device::values::{entry, piece, Cells, Value};
use crate::program::Step;
use crate::qwen35::dflash::DraftLayer;
use crate::qwen35::graph::Graph;

verus! {

broadcast use {group_runs, group_shared, group_hybrid};

/// The entry that another is read from after a copy.
pub open spec fn source(e: int, from: int, to: int) -> int {
    if e == to { from } else { e }
}

/// Rings of different layers, and of one, are different buffers.
pub open spec fn rings_apart(layers: Seq<DraftLayer>) -> bool {
    &&& forall|i: int| 0 <= i < layers.len() ==> (#[trigger] layers[i]).keys.id != layers[i].values.id
    &&& forall|i: int, j: int|
        0 <= i < layers.len() && 0 <= j < layers.len() && i != j ==> {
            let a = #[trigger] layers[i];
            let b = #[trigger] layers[j];
            &&& a.keys.id != b.keys.id
            &&& a.keys.id != b.values.id
            &&& a.values.id != b.keys.id
            &&& a.values.id != b.values.id
        }
}

/// No ring of these layers.
pub open spec fn no_ring(layers: Seq<DraftLayer>, id: u32) -> bool {
    forall|i: int|
        0 <= i < layers.len() ==> (#[trigger] layers[i]).keys.id != id && layers[i].values.id != id
}

proof fn lemma_other_rings(m: Cells, p: Seq<Step>, layers: Seq<DraftLayer>, words: int, from: usize, to: usize, id: u32)
    requires
        no_ring(layers, id),
    ensures
        run(m, Graph::ring_copies(p, layers, words, from, to))[id] == run(m, p)[id],
    decreases layers.len(),
{
    if layers.len() > 0 {
        let rest = layers.drop_last();
        assert(forall|i: int| 0 <= i < rest.len() ==> rest[i] == layers[i]);
        assert(layers.last() == layers[layers.len() - 1]);
        lemma_shared_names();
        lemma_other_rings(m, p, rest, words, from, to, id);
    }
}

/// One stretch copied over another of the same length.
proof fn lemma_stretch(v: Value, words: int, from: int, to: int, e: int)
    requires
        0 < words <= 2112 * 512,
        0 <= from && from * words <= u32::MAX,
        0 <= to && to * words <= u32::MAX,
        0 <= e,
    ensures
        ({
            let copied = Value::Patched {
                from: (from * words) as u32,
                to: (to * words) as u32,
                count: words as u32,
                new: Box::new(v),
                old: Box::new(v),
            };
            piece(copied, e * words, words) == piece(v, source(e, from, to) * words, words)
        }),
{
    assert(0 <= from * words) by (nonlinear_arith)
        requires
            0 <= from,
            0 < words,
    ;
    assert(0 <= to * words) by (nonlinear_arith)
        requires
            0 <= to,
            0 < words,
    ;
    if e < to {
        assert(e * words + words <= to * words) by (nonlinear_arith)
            requires
                e < to,
                0 < words,
        ;
    } else if to < e {
        assert(to * words + words <= e * words) by (nonlinear_arith)
            requires
                to < e,
                0 < words,
        ;
    }
}

/// Copying rings moves the keys and the values of every drafter layer from
/// one entry to another; no other entry changes.
pub proof fn ring_copies_move_every_layer(
    m: Cells,
    p: Seq<Step>,
    layers: Seq<DraftLayer>,
    words: int,
    from: usize,
    to: usize,
    i: int,
    e: int,
)
    requires
        0 < words <= 2112 * 512,
        from * words <= u32::MAX,
        to * words <= u32::MAX,
        0 <= e,
        0 <= i < layers.len(),
        rings_apart(layers),
    ensures
        ({
            let before = run(m, p);
            let after = run(m, Graph::ring_copies(p, layers, words, from, to));
            let l = layers[i];
            let at = source(e, from as int, to as int) * words;
            &&& piece(after[l.keys.id], e * words, words) == piece(before[l.keys.id], at, words)
            &&& piece(after[l.values.id], e * words, words) == piece(before[l.values.id], at, words)
        }),
    decreases layers.len(),
{
    let rest = layers.drop_last();
    let l = layers[i];
    let last = layers.last();
    assert(last == layers[layers.len() - 1]);
    assert(forall|j: int| 0 <= j < rest.len() ==> rest[j] == layers[j]);
    let c = run(m, Graph::ring_copies(p, rest, words, from, to));
    lemma_shared_names();
    lemma_ceil_div(words, 256);
    if i < rest.len() {
        ring_copies_move_every_layer(m, p, rest, words, from, to, i, e);
        assert(rest[i] == l);
    } else {
        lemma_other_rings(m, p, rest, words, from, to, l.keys.id);
        lemma_other_rings(m, p, rest, words, from, to, l.values.id);
        lemma_stretch(c[l.keys.id], words, from as int, to as int, e);
        lemma_stretch(c[l.values.id], words, from as int, to as int, e);
    }
}

impl Graph {
    /// The states, the windows, the companion's pending rows and the drafter's
    /// rings are different buffers.
    pub open spec fn keeps_apart(&self) -> bool {
        &&& self.state.id != self.conv.id
        &&& self.mtp matches Some(d) ==> d.pending.id != self.state.id && d.pending.id != self.conv.id
        &&& self.dflash matches Some(d) ==> {
            &&& rings_apart(d.layers@)
            &&& no_ring(d.layers@, self.state.id)
            &&& no_ring(d.layers@, self.conv.id)
            &&& self.mtp matches Some(c) ==> no_ring(d.layers@, c.pending.id)
        }
    }

    /// A copied checkpoint is read from `from` and written to `to`: entry `to`
    /// holds what entry `from` held, of states, windows, pending rows and
    /// rings alike, and every other entry is unchanged.
    #[verifier::rlimit(40)]
    #[verifier::spinoff_prover]
    pub proof fn checkpoints_move_from_one_entry_to_another(
        &self,
        m: Cells,
        p: Seq<Step>,
        from: usize,
        to: usize,
        e: u32,
    )
        requires
            self.wf(),
            self.keeps_apart(),
            from < 3 * 512 && to < 3 * 512 && e < 3 * 512,
        ensures
            ({
                let before = run(m, p);
                let after = run(m, self.checkpoint_steps(p, from, to));
                let width = self.geometry.width as int;
                let at = source(e as int, from as int, to as int);
                &&& entry(after[self.state.id], e) == entry(before[self.state.id], at as u32)
                &&& entry(after[self.conv.id], e) == entry(before[self.conv.id], at as u32)
                &&& self.mtp matches Some(d) ==> piece(after[d.pending.id], e * width, width) == piece(
                    before[d.pending.id],
                    at * width,
                    width,
                )
                &&& self.dflash matches Some(d) ==> forall|i: int|
                    #![trigger d.layers[i]]
                    0 <= i < d.layers.len() ==> {
                        let words = d.ring_words();
                        let l = d.layers[i];
                        &&& piece(after[l.keys.id], e * words, words) == piece(
                            before[l.keys.id],
                            at * words,
                            words,
                        )
                        &&& piece(after[l.values.id], e * words, words) == piece(
                            before[l.values.id],
                            at * words,
                            words,
                        )
                    }
            }),
    {
        let g = self.geometry;
        let width = g.width as int;
        lemma_shared_names();
        lemma_hybrid_names();
        lemma_ceil_div(width, 256);
        lemma_ceil_div(g.linear() * (g.state_size() + g.conv_width() * 3), 256);
        let q = self.dflash_checkpoint_steps(p, from, to);
        let c = run(m, q);
        if let Some(d) = self.dflash {
            let words = d.ring_words();
            lemma_product_bound(from as int, words, 1536, 2112 * 512int);
            lemma_product_bound(to as int, words, 1536, 2112 * 512int);
            assert forall|i: int| #![trigger d.layers[i]] 0 <= i < d.layers.len() implies ({
                let l = d.layers[i];
                let at = source(e as int, from as int, to as int) * words;
                &&& piece(c[l.keys.id], e * words, words) == piece(run(m, p)[l.keys.id], at, words)
                &&& piece(c[l.values.id], e * words, words) == piece(run(m, p)[l.values.id], at, words)
            }) by {
                ring_copies_move_every_layer(m, p, d.layers@, words, from, to, i, e as int);
            }
            lemma_other_rings(m, p, d.layers@, words, from, to, self.state.id);
            lemma_other_rings(m, p, d.layers@, words, from, to, self.conv.id);
            if let Some(x) = self.mtp {
                lemma_other_rings(m, p, d.layers@, words, from, to, x.pending.id);
            }
        }
        if let Some(d) = self.mtp {
            lemma_product_bound(from as int, width, 1536, 5120);
            lemma_product_bound(to as int, width, 1536, 5120);
            lemma_stretch(c[d.pending.id], width, from as int, to as int, e as int);
        }
    }
}

} // verus!
