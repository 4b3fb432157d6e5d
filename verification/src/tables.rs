//! Host tables of a tick: what is uploaded for its rows, and how a prompt is
//! cut into ticks.
use vstd::prelude::*;
use crate::arith::{min, BLOCK_TOKENS};
use crate::rows::{count_slot, tokens, Row};

verus! {

/// Rows of one prompt chunk.
pub const CHUNK: usize = 512;

/// A page list padded with zeros to the table's stride.
pub open spec fn padded(blocks: Seq<u32>, stride: int) -> Seq<u32> {
    Seq::new(stride as nat, |j: int| if j < blocks.len() { blocks[j] } else { 0u32 })
}

pub fn push_padded(out: &mut Vec<u32>, blocks: &Vec<u32>, stride: usize)
    ensures
        final(out)@ == old(out)@ + padded(blocks@, stride as int),
{
    let ghost before = out@;
    let ghost want = padded(blocks@, stride as int);
    let mut j: usize = 0;
    assert(out@ =~= before + want.take(0));
    while j < stride
        invariant
            j <= stride,
            want == padded(blocks@, stride as int),
            out@ == before + want.take(j as int),
        decreases stride - j,
    {
        out.push(if j < blocks.len() { blocks[j] } else { 0 });
        assert(want.take(j + 1) =~= want.take(j as int).push(want[j as int]));
        assert(out@ =~= before + want.take(j + 1));
        j = j + 1;
    }
    assert(want.take(stride as int) =~= want);
}

/// Slot and position of each row.
pub open spec fn row_meta(rows: Seq<Row>) -> Seq<u32> {
    Seq::new(
        rows.len() * 2,
        |i: int| if i % 2 == 0 { rows[i / 2].slot as u32 } else { rows[i / 2].position },
    )
}

pub fn row_ids(rows: &Vec<Row>) -> (r: Vec<u32>)
    ensures
        r@ == tokens(rows@),
{
    let mut ids: Vec<u32> = Vec::new();
    let mut i: usize = 0;
    while i < rows.len()
        invariant
            i <= rows.len(),
            ids@ == tokens(rows@).take(i as int),
        decreases rows.len() - i,
    {
        ids.push(rows[i].token);
        assert(ids@ =~= tokens(rows@).take(i + 1));
        i = i + 1;
    }
    assert(ids@ =~= tokens(rows@));
    ids
}

pub fn row_places(rows: &Vec<Row>) -> (r: Vec<u32>)
    ensures
        r@ == row_meta(rows@),
{
    let mut meta: Vec<u32> = Vec::new();
    let mut i: usize = 0;
    while i < rows.len()
        invariant
            i <= rows.len(),
            meta@ == row_meta(rows@).take(2 * i),
        decreases rows.len() - i,
    {
        let row = rows[i];
        meta.push(row.slot as u32);
        meta.push(row.position);
        proof {
            assert(row_meta(rows@)[2 * i] == row.slot as u32);
            assert(row_meta(rows@)[2 * i + 1] == row.position);
            assert(meta@ =~= row_meta(rows@).take(2 * (i + 1)));
        }
        i = i + 1;
    }
    assert(meta@ =~= row_meta(rows@));
    meta
}

/// Row numbers as the device reads them.
pub open spec fn narrow(list: Seq<usize>) -> Seq<u32> {
    list.map_values(|n: usize| n as u32)
}

pub fn narrowed(list: &Vec<usize>) -> (r: Vec<u32>)
    ensures
        r@ == narrow(list@),
{
    let mut r: Vec<u32> = Vec::new();
    let mut k: usize = 0;
    while k < list.len()
        invariant
            k <= list.len(),
            r@ == narrow(list@).take(k as int),
        decreases list.len() - k,
    {
        r.push(list[k] as u32);
        assert(r@ =~= narrow(list@).take(k + 1));
        k = k + 1;
    }
    assert(r@ =~= narrow(list@));
    r
}

/// The tokens of `slot` among `rows`, in order.
pub open spec fn slot_tokens(rows: Seq<Row>, slot: int) -> Seq<u32>
    decreases rows.len(),
{
    if rows.len() == 0 {
        Seq::empty()
    } else {
        let before = slot_tokens(rows.drop_last(), slot);
        if rows.last().slot == slot { before.push(rows.last().token) } else { before }
    }
}

pub proof fn lemma_slot_tokens(rows: Seq<Row>, slot: usize)
    ensures
        slot_tokens(rows, slot as int).len() == count_slot(rows, slot),
    decreases rows.len(),
{
    if rows.len() > 0 {
        lemma_slot_tokens(rows.drop_last(), slot);
    }
}

pub fn first_tokens(list: &Vec<u32>, n: usize) -> (r: Vec<u32>)
    requires
        n <= list.len(),
    ensures
        r@ == list@.take(n as int),
{
    let mut r: Vec<u32> = Vec::new();
    let mut i: usize = 0;
    while i < n
        invariant
            i <= n <= list.len(),
            r@ == list@.take(i as int),
        decreases n - i,
    {
        r.push(list[i]);
        assert(list@.take(i + 1) =~= list@.take(i as int).push(list[i as int]));
        i = i + 1;
    }
    r
}

pub fn copied_tokens(list: &Vec<u32>) -> (r: Vec<u32>)
    ensures
        r@ == list@,
{
    let r = first_tokens(list, list.len());
    assert(list@.take(list.len() as int) =~= list@);
    r
}

pub open spec fn starts_with(tokens: Seq<u32>, prefix: Seq<u32>) -> bool {
    prefix.len() <= tokens.len() && tokens.take(prefix.len() as int) == prefix
}

pub fn has_start(tokens: &Vec<u32>, prefix: &Vec<u32>) -> (r: bool)
    ensures
        r == starts_with(tokens@, prefix@),
{
    if prefix.len() > tokens.len() {
        return false;
    }
    let mut i: usize = 0;
    while i < prefix.len()
        invariant
            i <= prefix.len() <= tokens.len(),
            forall|j: int| 0 <= j < i ==> #[trigger] tokens[j] == prefix[j],
        decreases prefix.len() - i,
    {
        if tokens[i] != prefix[i] {
            assert(tokens@.take(prefix.len() as int)[i as int] != prefix[i as int]);
            return false;
        }
        i = i + 1;
    }
    assert(tokens@.take(prefix.len() as int) =~= prefix@);
    true
}

/// Pages that a table of `held` still lacks to reach `position`.
pub fn pages_missing(held: usize, position: usize) -> (r: usize)
    ensures
        r == if position as int / 16 + 1 > held { position as int / 16 + 1 - held } else { 0 },
{
    let need: usize = position / BLOCK_TOKENS + 1;
    if need > held {
        need - held
    } else {
        0
    }
}

/// The rows of the next prompt chunk and whether it ends the prompt.
pub fn prefill_rows(slot: usize, tokens: &Vec<u32>, position: usize) -> (r: (Vec<Row>, Vec<usize>))
    requires
        position < tokens.len() <= u32::MAX,
    ensures
        ({
            let n = min(CHUNK as int, tokens.len() - position);
            &&& r.0@ == Seq::new(
                n as nat,
                |i: int|
                    Row { slot, token: tokens[position + i], position: (position + i) as u32 },
            )
            &&& r.1@ == if position + n == tokens.len() {
                seq![(n - 1) as usize]
            } else {
                Seq::<usize>::empty()
            }
        }),
{
    let n: usize = if tokens.len() - position > CHUNK { CHUNK } else { tokens.len() - position };
    let mut rows: Vec<Row> = Vec::new();
    let mut i: usize = 0;
    while i < n
        invariant
            i <= n,
            position + n <= tokens.len() <= u32::MAX,
            rows@ == Seq::new(
                i as nat,
                |i: int|
                    Row { slot, token: tokens[position + i], position: (position + i) as u32 },
            ),
        decreases n - i,
    {
        rows.push(Row { slot, token: tokens[position + i], position: (position + i) as u32 });
        assert(rows@ =~= Seq::new(
            (i + 1) as nat,
            |i: int| Row { slot, token: tokens[position + i], position: (position + i) as u32 },
        ));
        i = i + 1;
    }
    let mut selected: Vec<usize> = Vec::new();
    if position + n == tokens.len() {
        selected.push(n - 1);
        assert(selected@ =~= seq![(n - 1) as usize]);
    }
    (rows, selected)
}

/// Where a prompt stands after `n` chunks.
pub open spec fn prefill_position(start: int, len: int, n: nat) -> int
    decreases n,
{
    if n == 0 {
        start
    } else {
        let at = prefill_position(start, len, (n - 1) as nat);
        at + min(CHUNK as int, len - at)
    }
}

/// Chunk by chunk a prompt is run exactly once, to its end.
pub proof fn prefill_reaches_the_end(start: int, len: int, n: nat)
    requires
        0 <= start <= len,
        n * 512 >= len - start,
    ensures
        prefill_position(start, len, n) == len,
{
    lemma_prefill(start, len, n);
}

proof fn lemma_prefill(start: int, len: int, n: nat)
    requires
        0 <= start <= len,
    ensures
        prefill_position(start, len, n) == min(len, start + n * 512),
    decreases n,
{
    if n > 0 {
        lemma_prefill(start, len, (n - 1) as nat);
    }
}

/// Bit pattern of a single-precision number that is neither infinite nor a
/// NaN.
pub open spec fn finite(bits: u32) -> bool {
    bits & 0x7f80_0000 != 0x7f80_0000
}

pub open spec fn all_finite(bits: Seq<u32>) -> bool {
    forall|i: int| 0 <= i < bits.len() ==> #[trigger] finite(bits[i])
}

pub fn are_finite(bits: &Vec<u32>) -> (r: bool)
    ensures
        r == all_finite(bits@),
{
    let mut i: usize = 0;
    while i < bits.len()
        invariant
            i <= bits.len(),
            forall|j: int| 0 <= j < i ==> #[trigger] finite(bits[j]),
        decreases bits.len() - i,
    {
        if bits[i] & 0x7f80_0000 == 0x7f80_0000 {
            assert(!finite(bits[i as int]));
            return false;
        }
        i = i + 1;
    }
    true
}

} // verus!
