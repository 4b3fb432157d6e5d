//! What a tick hands to its companions.
use vstd::prelude::*;
use crate::device::effects::{group_runs, group_shared, products, run};
use crate::device::names::lemma_shared_names;
use crate::device::values::{apart, piece, Cells, Value};
use crate::program::{kernel, Plane, Step};
use crate::qwen35::forward::Tick;
use crate::qwen35::graph::{projectable, Graph};
use crate::qwen35::meaning::copies::{ring_copies_move_every_layer, rings_apart, source};
use crate::qwen35::meaning::lane::{agree, separate};
use crate::qwen35::meaning::places::lemma_places;

verus! {

broadcast use {group_runs, group_shared};

/// The entry that an entry comes from once these copies have run in order.
pub open spec fn origin(copies: Seq<(usize, usize)>, e: int) -> int
    decreases copies.len(),
{
    if copies.len() == 0 {
        e
    } else {
        origin(
            copies.drop_last(),
            source(e, copies.last().0 as int, copies.last().1 as int),
        )
    }
}

/// Copies that go from sequences to entries of their own.
pub open spec fn outward(copies: Seq<(usize, usize)>, slots: int) -> bool {
    &&& forall|i: int| 0 <= i < copies.len() ==> (#[trigger] copies[i]).0 < slots <= copies[i].1
    &&& forall|i: int, j: int|
        0 <= i < j < copies.len() ==> (#[trigger] copies[i]).1 != (#[trigger] copies[j]).1
}

proof fn lemma_origin_slot(copies: Seq<(usize, usize)>, slots: int, e: int)
    requires
        outward(copies, slots),
        e < slots,
    ensures
        origin(copies, e) == e,
    decreases copies.len(),
{
    if copies.len() > 0 {
        let rest = copies.drop_last();
        assert(copies.last() == copies[copies.len() - 1]);
        assert(forall|i: int| 0 <= i < rest.len() ==> rest[i] == copies[i]);
        lemma_origin_slot(rest, slots, e);
    }
}

proof fn lemma_origin(copies: Seq<(usize, usize)>, slots: int, i: int)
    requires
        outward(copies, slots),
        0 <= i < copies.len(),
    ensures
        origin(copies, copies[i].1 as int) == copies[i].0,
    decreases copies.len(),
{
    let rest = copies.drop_last();
    let last = copies.len() - 1;
    assert(copies.last() == copies[last]);
    assert(forall|j: int| 0 <= j < rest.len() ==> rest[j] == copies[j]);
    if i < last {
        assert(copies[i].1 != copies[last].1);
        lemma_origin(rest, slots, i);
    } else {
        lemma_origin_slot(rest, slots, copies[last].0 as int);
    }
}

impl Graph {
    proof fn lemma_rings(&self, m: Cells, p: Seq<Step>, copies: Seq<(usize, usize)>, i: int, e: int)
        requires
            self.wf(),
            self.dflash is Some,
            rings_apart((self.dflash->0).layers@),
            0 <= i < (self.dflash->0).layers.len(),
            0 <= e,
            forall|j: int| 0 <= j < copies.len() ==> (#[trigger] copies[j]).0 < 1536 && copies[j].1 < 1536,
        ensures
            ({
                let d = self.dflash->0;
                let l = d.layers[i];
                let words = d.ring_words();
                let before = run(m, p);
                let after = run(m, self.copies_steps(p, copies));
                let at = origin(copies, e) * words;
                &&& piece(after[l.keys.id], e * words, words) == piece(before[l.keys.id], at, words)
                &&& piece(after[l.values.id], e * words, words) == piece(before[l.values.id], at, words)
            }),
        decreases copies.len(),
    {
        if copies.len() > 0 {
            let d = self.dflash->0;
            let words = d.ring_words();
            let rest = copies.drop_last();
            let c = copies.last();
            assert(c == copies[copies.len() - 1]);
            assert(forall|j: int| 0 <= j < rest.len() ==> rest[j] == copies[j]);
            crate::arith::lemma_product_bound(c.0 as int, words, 1536, 1081344);
            crate::arith::lemma_product_bound(c.1 as int, words, 1536, 1081344);
            ring_copies_move_every_layer(
                m,
                self.copies_steps(p, rest),
                d.layers@,
                words,
                c.0,
                c.1,
                i,
                e,
            );
            self.lemma_rings(m, p, rest, i, source(e, c.0 as int, c.1 as int));
        }
    }

    /// Every prefix that a tick saves gets the rings of the sequence that it is
    /// saved from, as they were.
    pub proof fn saved_prefixes_get_the_rings_of_their_sequence(
        &self,
        m: Cells,
        p: Seq<Step>,
        copies: Seq<(usize, usize)>,
        slots: int,
        i: int,
        k: int,
    )
        requires
            self.wf(),
            self.dflash is Some,
            rings_apart((self.dflash->0).layers@),
            0 <= i < (self.dflash->0).layers.len(),
            0 <= k < copies.len(),
            outward(copies, slots),
            forall|j: int| 0 <= j < copies.len() ==> (#[trigger] copies[j]).0 < 1536 && copies[j].1 < 1536,
        ensures
            ({
                let d = self.dflash->0;
                let l = d.layers[i];
                let words = d.ring_words();
                let (slot, kept) = copies[k];
                let before = run(m, p);
                let after = run(m, self.copies_steps(p, copies));
                &&& piece(after[l.keys.id], kept * words, words) == piece(
                    before[l.keys.id],
                    slot * words,
                    words,
                )
                &&& piece(after[l.values.id], kept * words, words) == piece(
                    before[l.values.id],
                    slot * words,
                    words,
                )
            }),
    {
        self.lemma_rings(m, p, copies, i, copies[k].1 as int);
        lemma_origin(copies, slots, k);
    }

    /// The logits leave the hidden rows as they are, and the next-token block
    /// catches up on exactly those rows.
    #[verifier::rlimit(60)]
    #[verifier::spinoff_prover]
    pub proof fn ticks_hand_their_hidden_rows_to_the_block(&self, m: Cells, p: Seq<Step>, t: Tick)
        requires
            self.wf(),
            t.wf(self),
            self.bonsai is None,
            self.mtp is Some,
            self.dflash is None,
            !self.verifying,
            !self.greedy_output,
            t.copies.len() == 0,
            apart(self.workplace((self.mtp->0).places())),
        ensures
            ({
                let d = self.mtp->0;
                let s = self.scratch;
                let width = self.geometry.width;
                let rows = t.rows.len();
                let before = run(m, p);
                let after = run(m, self.exit_steps(p, t));
                exists|q: Seq<Step>|
                    {
                        let mid = run(
                            m,
                            #[trigger] self.mtp_block_steps(q, t.companion_load(), t.images@, t.spans@),
                        );
                        &&& run(m, q)[d.h.id] == (Value::Patched {
                            from: 0,
                            to: 0,
                            count: (rows * width) as u32,
                            new: Box::new(before[s.x.id]),
                            old: Box::new(before[d.h.id]),
                        })
                        &&& after[d.pending.id] == (Value::Pending {
                            width: width as u32,
                            rows: rows as u32,
                            places: Box::new(mid[s.meta.id]),
                            bounds: Box::new(mid[s.bounds.id]),
                            marks: Box::new(mid[s.checkpoint_rows.id]),
                            new: Box::new(mid[d.h.id]),
                            old: Box::new(mid[d.pending.id]),
                        })
                    }
            }),
    {
        let d = self.mtp->0;
        let s = self.scratch;
        let width = self.geometry.width;
        let more = d.places();
        lemma_places(self, more);
        assert(more[0] == d.pending && more[1] == d.h && more[2] == d.concat && more[3] == d.drafted);
        lemma_shared_names();
        let n = t.selected;
        let one = seq![Plane { weight: self.head, out: s.logits }];
        let picked = p.push(
            kernel(
                self.lane_name("rms_selected"@, "mlx_rms_selected"@, "bonsai_rms_selected"@),
                seq![s.x, self.output_norm.buffer, s.outputs, s.norm],
                seq![width as u32, self.output_norm.ty, self.eps],
                (n as int, 1, 1),
                self.norm_threads(),
            ),
        );
        let q = if n > 0 {
            self.project_steps(picked, one, s.norm, n, s.gemm, t.spans@)
        } else {
            p
        };
        if n > 0 {
            reveal_with_fuel(products, 2);
            assert(projectable(self, one, n as int, t.spans@));
            assert(separate(one, s.norm, s.gemm));
            self.lanes_multiply_every_plane(m, picked, one, s.norm, n, s.gemm, t.spans@);
        }
        assert(run(m, q)[s.x.id] == run(m, p)[s.x.id]);
        assert(run(m, q)[d.h.id] == run(m, p)[d.h.id]);
        let all = self.mtp_catchup_steps(q, s.x, t.companion_load(), t.images@, t.spans@);
        assert(self.copies_steps(all, t.copies@) == all);
        assert(self.exit_steps(p, t) == all);
        self.catching_up_keeps_the_last_hidden_rows(m, q, s.x, t.companion_load(), t.images@, t.spans@);
    }
}

} // verus!
