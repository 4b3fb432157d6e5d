//! Symbolic values of device memory.
use vstd::prelude::*;
use crate::program::{Buffer, Weight};

verus! {

/// The numbers of a recurrent layer.
pub struct Net {
    pub key_heads: u32,
    pub value_heads: u32,
    pub channels: u32,
    pub rows: u32,
    pub slots: u32,
    pub layer: u32,
}

/// What a buffer holds, told by how it came about. Planes of weights never
/// change and are named by their buffer.
pub enum Value {
    /// What was there at first.
    Given { id: u32 },
    /// Words that the host wrote.
    Words { words: Seq<u32> },
    /// Nothing that can be relied on.
    Lost,
    /// Rows of a table, picked by token.
    Embedded { table: u32, width: u32, rows: u32, form: u32, scale: u32, ids: Box<Value> },
    /// Rows normalised by their root mean square, and scaled by `gain`.
    Normed { gain: u32, form: u32, width: u32, eps: u32, rows: int, of: Box<Value> },
    /// Rows times a plane of weights.
    Product { plane: u32, form: u32, k: u32, n: u32, rows: int, of: Box<Value> },
    /// The activated gate times the other half.
    Gated { count: u32, gate: Box<Value>, up: Box<Value> },
    /// A residual and what is added to it.
    Sum { count: u32, scale: u32, base: Box<Value>, branch: Box<Value> },
    /// Heads normalised and turned to their places.
    Turned {
        heads: u32,
        gain: u32,
        form: u32,
        base: u32,
        eps: u32,
        rows: int,
        places: Box<Value>,
        of: Box<Value>,
    },
    /// Value heads, laid out beside the keys.
    Laid { heads: u32, rows: int, of: Box<Value> },
    /// Rows of a batch that look at their own sequence.
    Attended {
        heads: u32,
        kv_heads: u32,
        scale: u32,
        count: int,
        tiles: Box<Value>,
        places: Box<Value>,
        queries: Box<Value>,
        keys: Box<Value>,
        values: Box<Value>,
    },
    /// The last row of each sequence, normalised, of unit length if asked.
    Pooled {
        gain: u32,
        form: u32,
        width: u32,
        eps: u32,
        unit: bool,
        count: int,
        rows: Box<Value>,
        of: Box<Value>,
    },
    /// The probability of one token against another, row by row.
    Scored { plane: u32, form: u32, width: u32, yes: u32, no: u32, count: int, of: Box<Value> },
    /// Picked rows, normalised.
    NormedPick { gain: u32, form: u32, width: u32, eps: u32, count: int, picks: Box<Value>, of: Box<Value> },
    /// A short convolution of every sequence, over what came before it too.
    Convolved {
        kernel: u32,
        bias: u32,
        reach: int,
        sequences: int,
        spans: Box<Value>,
        window: Box<Value>,
        of: Box<Value>,
    },
    /// The window of every sequence, moved over its rows.
    Slid { channels: int, sequences: int, spans: Box<Value>, window: Box<Value>, over: Box<Value> },
    /// Rows that went through the state one by one, beside rows of `base`.
    Scanned {
        a: u32,
        d: u32,
        dt: u32,
        all: bool,
        heads: int,
        sequences: int,
        spans: Box<Value>,
        projected: Box<Value>,
        state: Box<Value>,
        of: Box<Value>,
        base: Box<Value>,
    },
    /// A state behind the rows that moved it.
    Moved { by: Box<Value>, state: Box<Value> },
    /// Decays or steps of a tile.
    TileGate { step: bool, a: u32, dt: u32, tiles: int, spans: Box<Value>, of: Box<Value> },
    /// How the rows of a tile mix.
    TileMatrix { tiles: int, spans: Box<Value>, decays: Box<Value>, steps: Box<Value>, of: Box<Value> },
    /// What a tile adds to the state.
    TileDelta { tiles: int, spans: Box<Value>, decays: Box<Value>, steps: Box<Value>, of: Box<Value> },
    /// The state before each tile.
    TileStates {
        sequences: int,
        spans: Box<Value>,
        tiles: Box<Value>,
        decays: Box<Value>,
        deltas: Box<Value>,
        state: Box<Value>,
    },
    /// Rows of tiles, beside rows of `base`.
    TileOutput {
        d: u32,
        tiles: int,
        spans: Box<Value>,
        decays: Box<Value>,
        matrix: Box<Value>,
        states: Box<Value>,
        of: Box<Value>,
        base: Box<Value>,
    },
    /// Gated rows, normalised by group.
    NormedGate { gain: u32, eps: u32, rows: int, gate: Box<Value>, of: Box<Value> },
    /// A paged cache with new rows in it.
    Cached {
        rows: u32,
        stride: u32,
        places: Box<Value>,
        pages: Box<Value>,
        new: Box<Value>,
        old: Box<Value>,
    },
    /// Tiles of rows that look at the cache, beside rows of `base`.
    Appended {
        heads: u32,
        kv_heads: u32,
        stride: u32,
        scale: u32,
        launch: (int, int, int),
        places: Box<Value>,
        pages: Box<Value>,
        tiles: Box<Value>,
        queries: Box<Value>,
        keys: Box<Value>,
        values: Box<Value>,
        base: Box<Value>,
    },
    /// Partial results of rows that look at the cache one by one.
    Partial {
        heads: u32,
        kv_heads: u32,
        stride: u32,
        scale: u32,
        splits: u32,
        launch: (int, int, int),
        places: Box<Value>,
        pages: Box<Value>,
        picks: Box<Value>,
        queries: Box<Value>,
        keys: Box<Value>,
        values: Box<Value>,
    },
    /// Partial results put together, beside rows of `base`.
    Merged { heads: u32, splits: u32, count: int, picks: Box<Value>, parts: Box<Value>, base: Box<Value> },
    /// Experts picked for every row, or their weights.
    Routed { weights: bool, bias: u32, rows: int, of: Box<Value> },
    /// Picks listed by expert, or how many each has.
    Aligned { counts: bool, picks: u32, experts: int, of: Box<Value> },
    /// Tiles of listed picks.
    Tiled { experts: u32, rows: u32, of: Box<Value> },
    /// One half of the picked experts, tile by tile.
    ExpertTiles {
        up: bool,
        plane: u32,
        k: u32,
        n: u32,
        rows: u32,
        launch: (int, int, int),
        lists: Box<Value>,
        counts: Box<Value>,
        tiles: Box<Value>,
        of: Box<Value>,
    },
    /// One half of the picked experts, row by row.
    ExpertRows {
        up: bool,
        plane: u32,
        k: u32,
        n: u32,
        rows: u32,
        launch: (int, int, int),
        picks: Box<Value>,
        of: Box<Value>,
    },
    /// The squared positive part.
    Squared { count: u32, of: Box<Value> },
    /// Expert results, weighted and added.
    Folded { rows: u32, weights: Box<Value>, experts: Box<Value>, base: Box<Value> },
    /// States of which entry `to` is that of entry `from`; zeros for none.
    Copied { size: u32, layers: u32, slots: u32, to: u32, from: Option<u32>, of: Box<Value> },
    /// One state of a list.
    Entry { index: u32, of: Box<Value> },
    Zeros,
    /// Numbers copied over others.
    Patched { from: u32, to: u32, count: u32, new: Box<Value>, old: Box<Value> },
    /// Numbers read from some place on.
    Piece { at: int, count: int, of: Box<Value> },
    /// The token of the largest logit, row by row.
    Largest { vocab: u32, rows: int, of: Box<Value> },
    /// A short convolution of every sequence, over its window.
    NetConv {
        net: Net,
        kernel: u32,
        places: Box<Value>,
        bounds: Box<Value>,
        window: Box<Value>,
        of: Box<Value>,
    },
    /// Rows whose query and key heads are normalised.
    NetHeads { net: Net, rows: int, of: Box<Value> },
    /// How much of the state each row forgets and writes.
    NetGates { net: Net, a: u32, dt: u32, alpha: Box<Value>, beta: Box<Value> },
    /// Rows that went through a state without moving it, or what they would
    /// have written.
    NetTried {
        updates: bool,
        net: Net,
        limit: u32,
        sequences: int,
        spans: Box<Value>,
        places: Box<Value>,
        gates: Box<Value>,
        state: Box<Value>,
        of: Box<Value>,
        base: Box<Value>,
    },
    /// Windows that moved over rows, and those that were saved.
    NetSlid {
        net: Net,
        channels: int,
        sequences: int,
        spans: Box<Value>,
        places: Box<Value>,
        saves: Box<Value>,
        window: Box<Value>,
        over: Box<Value>,
    },
    /// Rows that went through the state one by one, beside rows of `base`.
    NetRows {
        net: Net,
        sequences: int,
        spans: Box<Value>,
        places: Box<Value>,
        saves: Box<Value>,
        gates: Box<Value>,
        state: Box<Value>,
        of: Box<Value>,
        base: Box<Value>,
    },
    /// Chunks of rows, prepared in two steps.
    Chunk {
        solved: bool,
        net: Net,
        chunks: int,
        spans: Box<Value>,
        gates: Box<Value>,
        of: Box<Value>,
        base: Box<Value>,
    },
    /// Rows of prepared chunks, beside rows of `base`.
    ChunkRows {
        net: Net,
        sequences: int,
        spans: Box<Value>,
        chunks: Box<Value>,
        places: Box<Value>,
        gates: Box<Value>,
        state: Box<Value>,
        of: Box<Value>,
        base: Box<Value>,
    },
    /// Heads normalised and turned to where their rows stand.
    HeadsTurned {
        heads: u32,
        gain: u32,
        base: u32,
        eps: u32,
        rotary: u32,
        rows: int,
        places: Box<Value>,
        of: Box<Value>,
    },
    /// Queries laid out for tiles.
    Staged { width: u32, first: u32, rows: u32, of: Box<Value> },
    StagedTiles { tiles: u32, launch: int, spans: Box<Value>, of: Box<Value> },
    /// Tiles of rows that look at the cache as far as they may, beside rows of
    /// `base`.
    AppendedUpTo {
        heads: u32,
        kv_heads: u32,
        stride: u32,
        scale: u32,
        launch: (int, int, int),
        places: Box<Value>,
        pages: Box<Value>,
        tiles: Box<Value>,
        limits: Box<Value>,
        queries: Box<Value>,
        keys: Box<Value>,
        values: Box<Value>,
        base: Box<Value>,
    },
    /// Partial results of tiles put together, beside rows of `base`.
    Joined { heads: u32, launch: (int, int, int), tiles: Box<Value>, parts: Box<Value>, base: Box<Value> },
    /// Partial results of rows that look at the cache as far as they may.
    PartialUpTo {
        heads: u32,
        kv_heads: u32,
        stride: u32,
        scale: u32,
        splits: u32,
        least: u32,
        launch: (int, int, int),
        places: Box<Value>,
        pages: Box<Value>,
        picks: Box<Value>,
        limits: Box<Value>,
        queries: Box<Value>,
        keys: Box<Value>,
        values: Box<Value>,
    },
    /// Rows gated by the other half of their query projection.
    HeadsGated { count: u32, gate: Box<Value>, of: Box<Value> },
    /// Gate and up halves of the picked experts, tile by tile or row by row.
    PairTiles {
        gate: u32,
        up: u32,
        k: u32,
        n: u32,
        rows: u32,
        launch: (int, int, int),
        lists: Box<Value>,
        counts: Box<Value>,
        tiles: Box<Value>,
        of: Box<Value>,
    },
    PairRows {
        gate: u32,
        up: u32,
        k: u32,
        n: u32,
        rows: u32,
        launch: (int, int, int),
        picks: Box<Value>,
        of: Box<Value>,
    },
    /// The activated gates times the other halves.
    PairGated { width: u32, picks: u32, of: Box<Value> },
    /// Expert results, weighted, beside the shared expert behind its gate.
    FoldedBeside {
        width: u32,
        rows: u32,
        weights: Box<Value>,
        shared: Box<Value>,
        experts: Box<Value>,
        base: Box<Value>,
    },
    /// Rows kept as one tap among others.
    Tapped { tap: u32, width: u32, rows: u32, new: Box<Value>, old: Box<Value> },
    /// Two rows side by side.
    Paired { width: u32, rows: u32, first: Box<Value>, second: Box<Value> },
    /// The hidden row before each row: one of the tick, or the one kept of
    /// its sequence.
    Previous {
        width: u32,
        rows: u32,
        kept: bool,
        hidden: Box<Value>,
        pending: Box<Value>,
        places: Box<Value>,
        bounds: Box<Value>,
    },
    /// Last hidden rows of the sequences, and those of the marked rows.
    Pending {
        width: u32,
        rows: u32,
        places: Box<Value>,
        bounds: Box<Value>,
        marks: Box<Value>,
        new: Box<Value>,
        old: Box<Value>,
    },
    /// One step of every draft chain.
    Drafted { rows: u32, step: u32, of: u32, new: Box<Value>, old: Box<Value> },
    /// Places of rows, one further.
    Further { rows: u32, of: Box<Value> },
    /// Rows of an image in place of those of its range.
    Shown {
        width: u32,
        rows: u32,
        slot: u32,
        offset: u32,
        count: u32,
        places: Box<Value>,
        image: Box<Value>,
        old: Box<Value>,
    },
    /// Rows stored in a ring; keys are normalised and turned first.
    Ringed {
        turned: Option<(u32, u32, u32, Box<Value>)>,
        heads: u32,
        stride: u32,
        ring: u32,
        drafted: u32,
        rows: int,
        places: Box<Value>,
        pages: Box<Value>,
        bounds: Box<Value>,
        new: Box<Value>,
        old: Box<Value>,
    },
    /// Heads of draft rows, normalised and turned.
    DraftTurned {
        heads: u32,
        gain: u32,
        eps: u32,
        base: u32,
        rows: int,
        places: Box<Value>,
        of: Box<Value>,
    },
    /// What draft rows see in their rings, whole or in parts.
    DraftSeen {
        parts: bool,
        heads: u32,
        groups: u32,
        stride: u32,
        scale: u32,
        rows: u32,
        launch: (int, int, int),
        places: Box<Value>,
        pages: Box<Value>,
        tiles: Box<Value>,
        queries: Box<Value>,
        keys: Box<Value>,
        values: Box<Value>,
    },
    /// Parts of what draft rows see, put together.
    DraftJoined { rows: u32, launch: int, of: Box<Value> },
    /// Rows of draft blocks convolved before or behind a sublayer.
    Mixed {
        base: u32,
        width: u32,
        rows: u32,
        block: u32,
        behind: u32,
        coefficients: Box<Value>,
        of: Box<Value>,
    },
    /// Best candidates of every stretch of a row's logits.
    BestOfParts { vocab: u32, parts: int, rows: int, of: Box<Value> },
    /// Best candidates of a row.
    Best { candidates: u32, rows: int, of: Box<Value> },
    /// The path picked through the candidates of every block.
    Path {
        block: u32,
        before: u32,
        before_form: u32,
        behind: u32,
        behind_form: u32,
        sequences: int,
        best: Box<Value>,
        hidden: Box<Value>,
        ids: Box<Value>,
    },
    /// Coefficients that turn one number of pixels into another.
    Weights { from: u32, to: u32, taps: u32 },
    /// Rows of pixels brought to another width.
    Narrowed {
        width: u32,
        to: u32,
        height: u32,
        taps: u32,
        coefficients: Box<Value>,
        of: Box<Value>,
    },
    /// Patches of an image that is brought to its height, from one row on.
    Patches {
        width: u32,
        height: u32,
        taps: u32,
        first: u32,
        coefficients: Box<Value>,
        of: Box<Value>,
        old: Box<Value>,
    },
    /// Rows of an image with the positions of its raster added.
    Positioned { table: u32, across: u32, down: u32, first: u32, of: Box<Value> },
    /// Rows times a plane: plain, with a bias, added to what was there, or
    /// activated.
    Biased {
        plane: u32,
        bias: Option<u32>,
        k: u32,
        n: u32,
        rows: u32,
        active: bool,
        base: Option<Box<Value>>,
        of: Box<Value>,
    },
    /// Rows behind a norm that also centres them.
    Centred { gain: u32, bias: u32, width: u32, eps: u32, rows: int, of: Box<Value> },
    /// Heads of the tower, turned or not.
    TowerHeads { rows: u32, turned: Option<Box<Value>>, of: Box<Value> },
    /// What the tiles of an image see of it.
    TowerSeen {
        launch: (int, int, int),
        tiles: Box<Value>,
        queries: Box<Value>,
        keys: Box<Value>,
        values: Box<Value>,
    },
    /// Activated numbers.
    Activated { count: u32, of: Box<Value> },
    /// The cells of one image.
    Extracted { first: u32, count: u32, of: Box<Value> },
    /// Rows turned by the signs of their width.
    Rotated { signs: u32, width: u32, rows: u32, of: Box<Value> },
    /// Rows of an embedding table, turned back by the signs of their width.
    EmbeddedRotated { table: u32, signs: u32, width: u32, vocab: u32, rows: u32, ids: Box<Value> },
}

pub type Cells = Map<u32, Value>;

/// One entry of a list of states.
pub open spec fn entry(v: Value, i: u32) -> Value
    decreases v,
{
    match v {
        Value::Copied { to, from, of, .. } => if i != to {
            entry(*of, i)
        } else {
            match from {
                Some(j) => entry(*of, j),
                None => Value::Zeros,
            }
        },
        _ => Value::Entry { index: i, of: Box::new(v) },
    }
}

/// What `count` numbers from `at` on are.
pub open spec fn piece(v: Value, at: int, count: int) -> Value
    decreases v,
{
    match v {
        Value::Patched { from, to, count: copied, new, old } => if to <= at && at + count <= to + copied {
            piece(*new, from + at - to, count)
        } else if at + count <= to || to + copied <= at {
            piece(*old, at, count)
        } else {
            Value::Piece { at, count, of: Box::new(v) }
        },
        _ => Value::Piece { at, count, of: Box::new(v) },
    }
}

/// Rows of `of` times a plane.
pub open spec fn product(w: Weight, rows: int, of: Value) -> Value {
    Value::Product {
        plane: w.buffer.id,
        form: w.ty,
        k: w.k as u32,
        n: w.n as u32,
        rows,
        of: Box::new(of),
    }
}

pub open spec fn gated(count: u32, gate: Value, up: Value) -> Value {
    Value::Gated { count, gate: Box::new(gate), up: Box::new(up) }
}

pub open spec fn sum(count: u32, scale: u32, base: Value, branch: Value) -> Value {
    Value::Sum { count, scale, base: Box::new(base), branch: Box::new(branch) }
}

pub open spec fn normed(gain: Weight, width: u32, eps: u32, rows: int, of: Value) -> Value {
    Value::Normed { gain: gain.buffer.id, form: gain.ty, width, eps, rows, of: Box::new(of) }
}

/// Buffers that are all different.
pub open spec fn apart(list: Seq<Buffer>) -> bool {
    forall|i: int, j: int| 0 <= i < j < list.len() ==> #[trigger] list[i].id != #[trigger] list[j].id
}

/// The place of a buffer in a list.
pub open spec fn seat(list: Seq<Buffer>, id: u32) -> int {
    choose|i: int| 0 <= i < list.len() && #[trigger] list[i].id == id
}

/// Buffers that are apart have one place each.
pub proof fn lemma_seats(list: Seq<Buffer>)
    requires
        apart(list),
    ensures
        forall|i: int| 0 <= i < list.len() ==> seat(list, (#[trigger] list[i]).id) == i,
{
    assert forall|i: int| 0 <= i < list.len() implies seat(list, (#[trigger] list[i]).id) == i by {
        let j = seat(list, list[i].id);
        assert(0 <= j < list.len() && list[j].id == list[i].id);
        if i < j {
            assert(list[i].id != list[j].id);
        } else if j < i {
            assert(list[j].id != list[i].id);
        }
    }
}

} // verus!
