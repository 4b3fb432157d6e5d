//! What each step makes of the memory.
use vstd::prelude::*;
use crate::arith::{ceil_div, ONE};
use crate::device::names::{work, Work};
use crate::device::values::{gated, product, sum, Cells, Net, Value};
use crate::program::{Buffer, Plane, Route, Step};

verus! {

/// Every element of a plane has a thread.
pub open spec fn fills(grid: (int, int, int), threads: int, count: int) -> bool {
    grid.0 * threads >= count && grid.1 == 1 && grid.2 == 1
}

/// One value put where it belongs.
pub open spec fn put(m: Cells, out: Buffer, v: Value) -> Cells {
    m.insert(out.id, v)
}

/// Rows of an embedding table: the table, the tokens and where the rows go.
pub open spec fn does_embed(m: Cells, b: Seq<Buffer>, n: Seq<u32>, grid: (int, int, int), threads: int) -> Cells {
    put(
        m,
        b[2],
        if fills(grid, threads, n[0] * n[1]) {
            Value::Embedded {
                table: b[0].id,
                width: n[0],
                rows: n[1],
                form: n[2],
                scale: n[3],
                ids: Box::new(m[b[1].id]),
            }
        } else {
            Value::Lost
        },
    )
}

/// A norm: the rows, the gain and where the result goes.
pub open spec fn does_norm(m: Cells, b: Seq<Buffer>, n: Seq<u32>, grid: (int, int, int), threads: int) -> Cells {
    put(
        m,
        b[2],
        Value::Normed {
            gain: b[1].id,
            width: n[0],
            form: n[1],
            eps: n[2],
            rows: grid.0,
            of: Box::new(m[b[0].id]),
        },
    )
}

/// The activation: the first plane is activated and multiplied by the second,
/// in place.
pub open spec fn does_gate(m: Cells, b: Seq<Buffer>, n: Seq<u32>, grid: (int, int, int), threads: int) -> Cells {
    put(
        m,
        b[0],
        if fills(grid, threads, n[0] as int) {
            gated(n[0], m[b[0].id], m[b[1].id])
        } else {
            Value::Lost
        },
    )
}

/// A branch added to the residual, in place.
pub open spec fn does_residual(m: Cells, b: Seq<Buffer>, n: Seq<u32>, grid: (int, int, int), threads: int) -> Cells {
    put(
        m,
        b[0],
        if fills(grid, threads, n[0] as int) {
            sum(n[0], n[1], m[b[0].id], m[b[1].id])
        } else {
            Value::Lost
        },
    )
}

/// Rows, gain, which rows, and where they go.
pub open spec fn does_norm_picked(m: Cells, b: Seq<Buffer>, n: Seq<u32>, grid: (int, int, int), threads: int) -> Cells {
    put(
        m,
        b[3],
        Value::NormedPick {
            gain: b[1].id,
            width: n[0],
            form: n[1],
            eps: n[2],
            count: grid.0,
            picks: Box::new(m[b[2].id]),
            of: Box::new(m[b[0].id]),
        },
    )
}

/// Picks, and where they go listed by expert, with the count of each.
pub open spec fn does_align(m: Cells, b: Seq<Buffer>, n: Seq<u32>, grid: (int, int, int), threads: int) -> Cells {
    let part = |counts: bool| Value::Aligned {
        counts,
        picks: n[0],
        experts: grid.0,
        of: Box::new(m[b[0].id]),
    };
    put(put(m, b[1], part(false)), b[2], part(true))
}

/// Counts by expert, and where the tiles go.
pub open spec fn does_tile(m: Cells, b: Seq<Buffer>, n: Seq<u32>, grid: (int, int, int), threads: int) -> Cells {
    put(m, b[1], Value::Tiled { experts: n[0], rows: n[1], of: Box::new(m[b[0].id]) })
}

/// Partial results, where the rows go, and which rows.
pub open spec fn does_merge_parts(m: Cells, b: Seq<Buffer>, n: Seq<u32>, grid: (int, int, int), threads: int) -> Cells {
    put(
        m,
        b[1],
        Value::Merged {
            heads: n[0],
            splits: n[1],
            count: grid.0,
            picks: Box::new(m[b[2].id]),
            parts: Box::new(m[b[0].id]),
            base: Box::new(m[b[1].id]),
        },
    )
}

/// A branch added to the residual, and the sum normalised for what follows: the
/// residual, the branch, the gain and where the norm goes.
pub open spec fn does_residual_norm(m: Cells, b: Seq<Buffer>, n: Seq<u32>, grid: (int, int, int), threads: int) -> Cells {
    let added = sum((grid.0 * n[0]) as u32, n[3], m[b[0].id], m[b[1].id]);
    put(
        put(m, b[0], added),
        b[3],
        Value::Normed {
            gain: b[2].id,
            width: n[0],
            form: n[1],
            eps: n[2],
            rows: grid.0,
            of: Box::new(added),
        },
    )
}

/// Numbers copied from a place of one buffer to a place of another.
pub open spec fn does_patch(m: Cells, b: Seq<Buffer>, n: Seq<u32>, grid: (int, int, int), threads: int) -> Cells {
    put(
        m,
        b[1],
        if fills(grid, threads, n[2] as int) {
            Value::Patched {
                from: n[0],
                to: n[1],
                count: n[2],
                new: Box::new(m[b[0].id]),
                old: Box::new(m[b[1].id]),
            }
        } else {
            Value::Lost
        },
    )
}

/// The largest logit of every row, and where the picks go.
pub open spec fn does_argmax(m: Cells, b: Seq<Buffer>, n: Seq<u32>, grid: (int, int, int), threads: int) -> Cells {
    put(m, b[1], Value::Largest { vocab: n[0], rows: grid.0, of: Box::new(m[b[0].id]) })
}

/// Heads of a plane, normalised and turned; the value heads are laid out
/// beside them if the last number asks for it.
pub open spec fn does_head_turn(m: Cells, b: Seq<Buffer>, n: Seq<u32>, grid: (int, int, int), threads: int) -> Cells {
    let turned = put(
        m,
        b[3],
        Value::Turned {
            heads: n[0],
            gain: b[1].id,
            form: n[1],
            base: n[2],
            eps: n[3],
            rows: grid.1,
            places: Box::new(m[b[2].id]),
            of: Box::new(m[b[0].id]),
        },
    );
    if n[4] == 1 {
        put(turned, b[5], Value::Laid { heads: n[0], rows: grid.1, of: Box::new(m[b[4].id]) })
    } else {
        turned
    }
}

/// Queries, keys, values, places, where the result goes, and the tiles.
pub open spec fn does_batch_attend(m: Cells, b: Seq<Buffer>, n: Seq<u32>, grid: (int, int, int), threads: int) -> Cells {
    put(
        m,
        b[5],
        Value::Attended {
            heads: n[0],
            kv_heads: n[1],
            scale: n[3],
            count: grid.1,
            tiles: Box::new(m[b[6].id]),
            places: Box::new(m[b[3].id]),
            queries: Box::new(m[b[0].id]),
            keys: Box::new(m[b[1].id]),
            values: Box::new(m[b[2].id]),
        },
    )
}

/// Rows, gain, which rows, and where the result goes.
pub open spec fn does_pool(m: Cells, b: Seq<Buffer>, n: Seq<u32>, grid: (int, int, int), threads: int) -> Cells {
    put(
        m,
        b[3],
        Value::Pooled {
            gain: b[1].id,
            width: n[0],
            form: n[1],
            eps: n[2],
            unit: n[3] == 1,
            count: grid.0,
            rows: Box::new(m[b[2].id]),
            of: Box::new(m[b[0].id]),
        },
    )
}

/// Pooled rows, the plane of a head, and where the scores go: the third number
/// is the token that the score is for, the fourth the one against it.
pub open spec fn does_score(m: Cells, b: Seq<Buffer>, n: Seq<u32>, grid: (int, int, int), threads: int) -> Cells {
    put(
        m,
        b[2],
        Value::Scored {
            plane: b[1].id,
            width: n[0],
            form: n[1],
            yes: n[2],
            no: n[3],
            count: grid.0,
            of: Box::new(m[b[0].id]),
        },
    )
}

/// A plane, the rows and where the products go. Every tile is computed, at
/// unit scale.
pub open spec fn does_multiply(
    m: Cells,
    b: Seq<Buffer>,
    n: Seq<u32>,
    grid: (int, int, int),
    columns: int,
    tile: int,
) -> Cells {
    put(
        m,
        b[2],
        if grid.0 * columns >= n[1] && grid.1 * tile >= n[2] && grid.2 == 1 && n[4] == ONE {
            Value::Product {
                plane: b[0].id,
                form: n[3],
                k: n[0],
                n: n[1],
                rows: n[2] as int,
                of: Box::new(m[b[1].id]),
            }
        } else {
            Value::Lost
        },
    )
}

/// Two or three planes over one input; two where the third has no columns.
/// Every tile is computed.
pub open spec fn does_multiply_many(
    m: Cells,
    b: Seq<Buffer>,
    n: Seq<u32>,
    grid: (int, int, int),
    columns: int,
    tile: int,
) -> Cells {
    let of = m[b[3].id];
    let one = |w: int, sides: u32, form: u32| Value::Product {
        plane: b[w].id,
        form,
        k: n[0],
        n: sides,
        rows: n[4] as int,
        of: Box::new(of),
    };
    let tiles = ceil_div(n[1] as int, columns) + ceil_div(n[2] as int, columns) + ceil_div(
        n[3] as int,
        columns,
    );
    if grid == (tiles, 1int, 1int) && tile == n[4] {
        let two = put(put(m, b[4], one(0, n[1], n[5])), b[5], one(1, n[2], n[6]));
        if n[3] == 0 {
            two
        } else {
            put(two, b[6], one(2, n[3], n[7]))
        }
    } else {
        Map::empty()
    }
}

/// Projected rows, the window before them, kernel, bias, the sequences, and where
/// the result goes.
pub open spec fn does_window_conv(m: Cells, b: Seq<Buffer>, n: Seq<u32>, grid: (int, int, int), threads: int) -> Cells {
    put(
        m,
        b[5],
        Value::Convolved {
            kernel: b[2].id,
            bias: b[3].id,
            reach: grid.0 * threads,
            sequences: grid.1,
            spans: Box::new(m[b[4].id]),
            window: Box::new(m[b[1].id]),
            of: Box::new(m[b[0].id]),
        },
    )
}

/// Projected rows, the window that moves over them, and the sequences.
pub open spec fn does_window_slide(m: Cells, b: Seq<Buffer>, n: Seq<u32>, grid: (int, int, int), threads: int) -> Cells {
    put(
        m,
        b[1],
        Value::Slid {
            channels: grid.0 * threads,
            sequences: grid.1,
            spans: Box::new(m[b[2].id]),
            window: Box::new(m[b[1].id]),
            over: Box::new(m[b[0].id]),
        },
    )
}

/// One row after another through the state: convolved rows, projected rows,
/// decay, skip, step bias, the state, the sequences, and where the result goes.
pub open spec fn does_scan(m: Cells, b: Seq<Buffer>, n: Seq<u32>, grid: (int, int, int), threads: int) -> Cells {
    let done = Value::Scanned {
        a: b[2].id,
        d: b[3].id,
        dt: b[4].id,
        all: n[0] == 1,
        heads: grid.1,
        sequences: grid.2,
        spans: Box::new(m[b[6].id]),
        projected: Box::new(m[b[1].id]),
        state: Box::new(m[b[5].id]),
        of: Box::new(m[b[0].id]),
        base: Box::new(m[b[7].id]),
    };
    put(
        put(m, b[7], done),
        b[5],
        Value::Moved { by: Box::new(done), state: Box::new(m[b[5].id]) },
    )
}

/// Projected rows, decay, step bias, the tiles, and where decays and steps go.
pub open spec fn does_space_gates(m: Cells, b: Seq<Buffer>, n: Seq<u32>, grid: (int, int, int), threads: int) -> Cells {
    let part = |step: bool| Value::TileGate {
        step,
        a: b[1].id,
        dt: b[2].id,
        tiles: grid.1,
        spans: Box::new(m[b[3].id]),
        of: Box::new(m[b[0].id]),
    };
    put(put(m, b[4], part(false)), b[5], part(true))
}

/// Convolved rows, tiles, decays, steps, and where the mixing matrices go.
pub open spec fn does_space_matrix(m: Cells, b: Seq<Buffer>, n: Seq<u32>, grid: (int, int, int), threads: int) -> Cells {
    put(
        m,
        b[4],
        Value::TileMatrix {
            tiles: grid.1,
            spans: Box::new(m[b[1].id]),
            decays: Box::new(m[b[2].id]),
            steps: Box::new(m[b[3].id]),
            of: Box::new(m[b[0].id]),
        },
    )
}

/// Convolved rows, tiles, decays, steps, and where the change of state goes.
pub open spec fn does_space_delta(m: Cells, b: Seq<Buffer>, n: Seq<u32>, grid: (int, int, int), threads: int) -> Cells {
    put(
        m,
        b[4],
        Value::TileDelta {
            tiles: grid.2,
            spans: Box::new(m[b[1].id]),
            decays: Box::new(m[b[2].id]),
            steps: Box::new(m[b[3].id]),
            of: Box::new(m[b[0].id]),
        },
    )
}

/// The state, the changes of every tile, decays, sequences, tiles, and where
/// the state before each tile goes. The state itself moves behind the last.
pub open spec fn does_space_states(m: Cells, b: Seq<Buffer>, n: Seq<u32>, grid: (int, int, int), threads: int) -> Cells {
    let walked = Value::TileStates {
        sequences: grid.1,
        spans: Box::new(m[b[3].id]),
        tiles: Box::new(m[b[4].id]),
        decays: Box::new(m[b[2].id]),
        deltas: Box::new(m[b[1].id]),
        state: Box::new(m[b[0].id]),
    };
    put(
        put(m, b[5], walked),
        b[0],
        Value::Moved { by: Box::new(walked), state: Box::new(m[b[0].id]) },
    )
}

/// Convolved rows, tiles, decays, mixing matrices, the states before the tiles,
/// skip, and where the result goes.
pub open spec fn does_space_output(m: Cells, b: Seq<Buffer>, n: Seq<u32>, grid: (int, int, int), threads: int) -> Cells {
    put(
        m,
        b[6],
        Value::TileOutput {
            d: b[5].id,
            tiles: grid.2,
            spans: Box::new(m[b[1].id]),
            decays: Box::new(m[b[2].id]),
            matrix: Box::new(m[b[3].id]),
            states: Box::new(m[b[4].id]),
            of: Box::new(m[b[0].id]),
            base: Box::new(m[b[6].id]),
        },
    )
}

/// Mixed rows, the projected rows that gate them, gain, and where they go.
pub open spec fn does_space_norm(m: Cells, b: Seq<Buffer>, n: Seq<u32>, grid: (int, int, int), threads: int) -> Cells {
    put(
        m,
        b[3],
        Value::NormedGate {
            gain: b[2].id,
            eps: n[0],
            rows: grid.1,
            gate: Box::new(m[b[1].id]),
            of: Box::new(m[b[0].id]),
        },
    )
}

/// New keys, new values, the key cache, the value cache, the places of the rows,
/// and the pages.
pub open spec fn does_store(m: Cells, b: Seq<Buffer>, n: Seq<u32>, grid: (int, int, int), threads: int) -> Cells {
    let kept = |new: Value, old: Value| if fills(grid, threads, n[0] * 256) {
        Value::Cached {
            rows: n[0],
            stride: n[1],
            places: Box::new(m[b[4].id]),
            pages: Box::new(m[b[5].id]),
            new: Box::new(new),
            old: Box::new(old),
        }
    } else {
        Value::Lost
    };
    put(
        put(m, b[2], kept(m[b[0].id], m[b[2].id])),
        b[3],
        kept(m[b[1].id], m[b[3].id]),
    )
}

/// Queries, the key cache, the value cache, places, pages, where the result
/// goes, and the tiles.
pub open spec fn does_append(m: Cells, b: Seq<Buffer>, n: Seq<u32>, grid: (int, int, int), threads: int) -> Cells {
    put(
        m,
        b[5],
        Value::Appended {
            heads: n[0],
            kv_heads: n[1],
            stride: n[2],
            scale: n[3],
            launch: grid,
            places: Box::new(m[b[3].id]),
            pages: Box::new(m[b[4].id]),
            tiles: Box::new(m[b[6].id]),
            queries: Box::new(m[b[0].id]),
            keys: Box::new(m[b[1].id]),
            values: Box::new(m[b[2].id]),
            base: Box::new(m[b[5].id]),
        },
    )
}

/// Queries, the key cache, the value cache, places, pages, which rows, and
/// where the partial results go.
pub open spec fn does_decode_parts(m: Cells, b: Seq<Buffer>, n: Seq<u32>, grid: (int, int, int), threads: int) -> Cells {
    put(
        m,
        b[6],
        Value::Partial {
            heads: n[0],
            kv_heads: n[1],
            stride: n[2],
            scale: n[3],
            splits: n[5],
            launch: grid,
            places: Box::new(m[b[3].id]),
            pages: Box::new(m[b[4].id]),
            picks: Box::new(m[b[5].id]),
            queries: Box::new(m[b[0].id]),
            keys: Box::new(m[b[1].id]),
            values: Box::new(m[b[2].id]),
        },
    )
}

/// Router logits, bias, and where the picks and their weights go.
pub open spec fn does_route(m: Cells, b: Seq<Buffer>, n: Seq<u32>, grid: (int, int, int), threads: int) -> Cells {
    let part = |weights: bool| Value::Routed {
        weights,
        bias: b[1].id,
        rows: grid.0,
        of: Box::new(m[b[0].id]),
    };
    put(put(m, b[2], part(false)), b[3], part(true))
}

/// Planes of every expert, rows, lists, counts, tiles, and where the first half of
/// the picked experts goes.
pub open spec fn does_experts_up(m: Cells, b: Seq<Buffer>, n: Seq<u32>, grid: (int, int, int), threads: int) -> Cells {
    put(
        m,
        b[5],
        Value::ExpertTiles {
            up: true,
            plane: b[0].id,
            k: n[0],
            n: n[1],
            rows: n[2],
            launch: grid,
            lists: Box::new(m[b[2].id]),
            counts: Box::new(m[b[3].id]),
            tiles: Box::new(m[b[4].id]),
            of: Box::new(m[b[1].id]),
        },
    )
}

/// Planes of every expert, rows, picks, and where the first half of the picked
/// experts goes.
pub open spec fn does_experts_up_each(m: Cells, b: Seq<Buffer>, n: Seq<u32>, grid: (int, int, int), threads: int) -> Cells {
    put(
        m,
        b[3],
        Value::ExpertRows {
            up: true,
            plane: b[0].id,
            k: n[0],
            n: n[1],
            rows: n[2],
            launch: grid,
            picks: Box::new(m[b[2].id]),
            of: Box::new(m[b[1].id]),
        },
    )
}

/// Planes of every expert, rows, lists, counts, tiles, and where the second half of
/// the picked experts goes.
pub open spec fn does_experts_down(m: Cells, b: Seq<Buffer>, n: Seq<u32>, grid: (int, int, int), threads: int) -> Cells {
    put(
        m,
        b[5],
        Value::ExpertTiles {
            up: false,
            plane: b[0].id,
            k: n[0],
            n: n[1],
            rows: n[2],
            launch: grid,
            lists: Box::new(m[b[2].id]),
            counts: Box::new(m[b[3].id]),
            tiles: Box::new(m[b[4].id]),
            of: Box::new(m[b[1].id]),
        },
    )
}

/// Planes of every expert, rows, picks, and where the second half of the picked
/// experts goes.
pub open spec fn does_experts_down_each(m: Cells, b: Seq<Buffer>, n: Seq<u32>, grid: (int, int, int), threads: int) -> Cells {
    put(
        m,
        b[3],
        Value::ExpertRows {
            up: false,
            plane: b[0].id,
            k: n[0],
            n: n[1],
            rows: n[2],
            launch: grid,
            picks: Box::new(m[b[2].id]),
            of: Box::new(m[b[1].id]),
        },
    )
}

/// The squared positive part, in place.
pub open spec fn does_square(m: Cells, b: Seq<Buffer>, n: Seq<u32>, grid: (int, int, int), threads: int) -> Cells {
    put(
        m,
        b[0],
        if fills(grid, threads, n[0] as int) {
            Value::Squared { count: n[0], of: Box::new(m[b[0].id]) }
        } else {
            Value::Lost
        },
    )
}

/// Expert results, their weights, and what they are added to.
pub open spec fn does_fold(m: Cells, b: Seq<Buffer>, n: Seq<u32>, grid: (int, int, int), threads: int) -> Cells {
    put(
        m,
        b[2],
        if fills(grid, threads, n[0] * 2688) {
            Value::Folded {
                rows: n[0],
                weights: Box::new(m[b[1].id]),
                experts: Box::new(m[b[0].id]),
                base: Box::new(m[b[2].id]),
            }
        } else {
            Value::Lost
        },
    )
}

/// A state of so many numbers into one entry from another; from none, zeros.
pub open spec fn does_state_copy(m: Cells, b: Seq<Buffer>, n: Seq<u32>, grid: (int, int, int), threads: int) -> Cells {
    put(
        m,
        b[0],
        if fills(grid, threads, n[0] as int) {
            Value::Copied {
                size: n[0],
                layers: 1,
                slots: 0,
                to: n[1],
                from: if n[2] == u32::MAX { None } else { Some(n[2]) },
                of: Box::new(m[b[0].id]),
            }
        } else {
            Value::Lost
        },
    )
}

/// The numbers of a recurrent layer.
pub open spec fn net(n: Seq<u32>) -> Net {
    Net { key_heads: n[0], value_heads: n[1], channels: n[2], rows: n[3], slots: n[4], layer: n[5] }
}

/// Projected rows, kernel, the windows, the places of the rows, the bounds of
/// the sequences, and where the result goes.
pub open spec fn does_short_conv(m: Cells, b: Seq<Buffer>, n: Seq<u32>, grid: (int, int, int), threads: int) -> Cells {
    put(
        m,
        b[5],
        if fills(grid, threads, n[3] * n[2]) {
            Value::NetConv {
                net: net(n),
                kernel: b[1].id,
                places: Box::new(m[b[3].id]),
                bounds: Box::new(m[b[4].id]),
                window: Box::new(m[b[2].id]),
                of: Box::new(m[b[0].id]),
            }
        } else {
            Value::Lost
        },
    )
}

/// Query and key heads of convolved rows, normalised in place.
pub open spec fn does_head_norm(m: Cells, b: Seq<Buffer>, n: Seq<u32>, grid: (int, int, int), threads: int) -> Cells {
    put(m, b[0], Value::NetHeads { net: net(n), rows: grid.1, of: Box::new(m[b[0].id]) })
}

/// Decay and strength before their activation, decay, step bias, and where the
/// gates go.
pub open spec fn does_net_gates(m: Cells, b: Seq<Buffer>, n: Seq<u32>, grid: (int, int, int), threads: int) -> Cells {
    put(
        m,
        b[4],
        if fills(grid, threads, n[3] * n[1]) {
            Value::NetGates {
                net: net(n),
                a: b[2].id,
                dt: b[3].id,
                alpha: Box::new(m[b[0].id]),
                beta: Box::new(m[b[1].id]),
            }
        } else {
            Value::Lost
        },
    )
}

/// Convolved rows, gates, the state, sequences, places, and where the rows and
/// the updates go. The state stays.
pub open spec fn does_net_verify(m: Cells, b: Seq<Buffer>, n: Seq<u32>, grid: (int, int, int), threads: int) -> Cells {
    let part = |updates: bool, base: Value| Value::NetTried {
        updates,
        net: net(n),
        limit: n[6],
        sequences: grid.2,
        spans: Box::new(m[b[3].id]),
        places: Box::new(m[b[4].id]),
        gates: Box::new(m[b[1].id]),
        state: Box::new(m[b[2].id]),
        of: Box::new(m[b[0].id]),
        base: Box::new(base),
    };
    put(put(m, b[5], part(false, m[b[5].id])), b[6], part(true, m[b[6].id]))
}

/// Projected rows, the windows that move over them, sequences, places, and the
/// windows that are saved on the way.
pub open spec fn does_net_slide(m: Cells, b: Seq<Buffer>, n: Seq<u32>, grid: (int, int, int), threads: int) -> Cells {
    put(
        m,
        b[1],
        Value::NetSlid {
            net: net(n),
            channels: grid.0 * threads,
            sequences: grid.1,
            spans: Box::new(m[b[2].id]),
            places: Box::new(m[b[3].id]),
            saves: Box::new(m[b[4].id]),
            window: Box::new(m[b[1].id]),
            over: Box::new(m[b[0].id]),
        },
    )
}

/// Convolved rows, gates, the state, sequences, places, where the rows go, and
/// the states that are saved on the way.
pub open spec fn does_net_recur(m: Cells, b: Seq<Buffer>, n: Seq<u32>, grid: (int, int, int), threads: int) -> Cells {
    let rows = Value::NetRows {
        net: net(n),
        sequences: grid.2,
        spans: Box::new(m[b[3].id]),
        places: Box::new(m[b[4].id]),
        saves: Box::new(m[b[6].id]),
        gates: Box::new(m[b[1].id]),
        state: Box::new(m[b[2].id]),
        of: Box::new(m[b[0].id]),
        base: Box::new(m[b[5].id]),
    };
    put(
        put(m, b[5], rows),
        b[2],
        Value::Moved { by: Box::new(rows), state: Box::new(m[b[2].id]) },
    )
}

/// Products of the rows of a chunk: convolved rows, gates, chunks, and
/// where they are prepared.
pub open spec fn does_chunk_dots(m: Cells, b: Seq<Buffer>, n: Seq<u32>, grid: (int, int, int), threads: int) -> Cells {
    put(
        m,
        b[3],
        Value::Chunk {
            solved: false,
            net: net(n),
            chunks: grid.1,
            spans: Box::new(m[b[2].id]),
            gates: Box::new(m[b[1].id]),
            of: Box::new(m[b[0].id]),
            base: Box::new(m[b[3].id]),
        },
    )
}

/// Chunks solved from those products: convolved rows, gates, chunks, and
/// where they are prepared.
pub open spec fn does_chunk_prepare(m: Cells, b: Seq<Buffer>, n: Seq<u32>, grid: (int, int, int), threads: int) -> Cells {
    put(
        m,
        b[3],
        Value::Chunk {
            solved: true,
            net: net(n),
            chunks: grid.1,
            spans: Box::new(m[b[2].id]),
            gates: Box::new(m[b[1].id]),
            of: Box::new(m[b[0].id]),
            base: Box::new(m[b[3].id]),
        },
    )
}

/// Prepared chunks, gates, sequences, chunks, places, the state, and where the
/// rows go.
pub open spec fn does_chunk_walk(m: Cells, b: Seq<Buffer>, n: Seq<u32>, grid: (int, int, int), threads: int) -> Cells {
    let rows = Value::ChunkRows {
        net: net(n),
        sequences: grid.2,
        spans: Box::new(m[b[2].id]),
        chunks: Box::new(m[b[3].id]),
        places: Box::new(m[b[4].id]),
        gates: Box::new(m[b[1].id]),
        state: Box::new(m[b[5].id]),
        of: Box::new(m[b[0].id]),
        base: Box::new(m[b[6].id]),
    };
    put(
        put(m, b[6], rows),
        b[5],
        Value::Moved { by: Box::new(rows), state: Box::new(m[b[5].id]) },
    )
}

/// Mixed rows, what gates them, and gain, in place.
pub open spec fn does_net_norm(m: Cells, b: Seq<Buffer>, n: Seq<u32>, grid: (int, int, int), threads: int) -> Cells {
    put(
        m,
        b[0],
        Value::NormedGate {
            gain: b[2].id,
            eps: n[6],
            rows: grid.1,
            gate: Box::new(m[b[1].id]),
            of: Box::new(m[b[0].id]),
        },
    )
}

/// The states and the windows of every layer, one entry over another: the first
/// number is read, the second written.
pub open spec fn does_entry_copy(m: Cells, b: Seq<Buffer>, n: Seq<u32>, grid: (int, int, int), threads: int) -> Cells {
    let copied = |v: Value, size: u32| if fills(grid, threads, n[5] * (n[3] + n[4])) {
        Value::Copied { size, layers: n[5], slots: n[2], to: n[1], from: Some(n[0]), of: Box::new(v) }
    } else {
        Value::Lost
    };
    put(put(m, b[0], copied(m[b[0].id], n[3])), b[1], copied(m[b[1].id], n[4]))
}

/// Heads normalised and turned, by the numbers of a paged layer.
pub open spec fn turned(n: Seq<u32>, heads: u32, gain: Buffer, rows: int, places: Value, of: Value) -> Value {
    Value::HeadsTurned {
        heads,
        gain: gain.id,
        base: n[3],
        eps: n[4],
        rotary: n[5],
        rows,
        places: Box::new(places),
        of: Box::new(of),
    }
}

/// Projected queries, gain, where the rows stand, and where the queries go.
pub open spec fn does_query_turn(m: Cells, b: Seq<Buffer>, n: Seq<u32>, grid: (int, int, int), threads: int) -> Cells {
    put(
        m,
        b[3],
        if grid.0 == n[0] {
            turned(n, n[0], b[1], grid.1, m[b[2].id], m[b[0].id])
        } else {
            Value::Lost
        },
    )
}

/// New keys, new values, gain, places, pages, the key cache, the value cache,
/// and where the rows stand.
pub open spec fn does_key_store(m: Cells, b: Seq<Buffer>, n: Seq<u32>, grid: (int, int, int), threads: int) -> Cells {
    let kept = |new: Value, old: Value| if grid.0 == n[1] {
        Value::Cached {
            rows: grid.1 as u32,
            stride: n[2],
            places: Box::new(m[b[3].id]),
            pages: Box::new(m[b[4].id]),
            new: Box::new(new),
            old: Box::new(old),
        }
    } else {
        Value::Lost
    };
    put(
        put(
            m,
            b[5],
            kept(turned(n, n[1], b[2], grid.1, m[b[7].id], m[b[0].id]), m[b[5].id]),
        ),
        b[6],
        kept(m[b[1].id], m[b[6].id]),
    )
}

/// Queries, and where they are laid out for tiles of rows.
pub open spec fn does_stage(m: Cells, b: Seq<Buffer>, n: Seq<u32>, grid: (int, int, int), threads: int) -> Cells {
    put(
        m,
        b[1],
        if fills(grid, threads, (n[2] + 32) * n[0]) {
            Value::Staged { width: n[0], first: n[1], rows: n[2], of: Box::new(m[b[0].id]) }
        } else {
            Value::Lost
        },
    )
}

/// Queries, where they are laid out, and the tiles.
pub open spec fn does_stage_tiles(m: Cells, b: Seq<Buffer>, n: Seq<u32>, grid: (int, int, int), threads: int) -> Cells {
    put(
        m,
        b[1],
        Value::StagedTiles {
            tiles: n[0],
            launch: grid.0,
            spans: Box::new(m[b[2].id]),
            of: Box::new(m[b[0].id]),
        },
    )
}

/// Queries, the key cache, the value cache, places, pages, where the result
/// goes, the tiles, and how far each row may look.
pub open spec fn does_append_limited(m: Cells, b: Seq<Buffer>, n: Seq<u32>, grid: (int, int, int), threads: int) -> Cells {
    let seen = Value::AppendedUpTo {
        heads: n[0],
        kv_heads: n[1],
        stride: n[2],
        scale: n[3],
        launch: grid,
        places: Box::new(m[b[3].id]),
        pages: Box::new(m[b[4].id]),
        tiles: Box::new(m[b[6].id]),
        limits: Box::new(m[b[7].id]),
        queries: Box::new(m[b[0].id]),
        keys: Box::new(m[b[1].id]),
        values: Box::new(m[b[2].id]),
        base: Box::new(m[b[5].id]),
    };
    put(m, b[5], seen)
}

/// Queries, the key cache, the value cache, places, pages, where the result
/// goes, the tiles, and how far each row may look; the last buffer is
/// worked on.
pub open spec fn does_append_prepared(m: Cells, b: Seq<Buffer>, n: Seq<u32>, grid: (int, int, int), threads: int) -> Cells {
    let seen = Value::AppendedUpTo {
        heads: n[0],
        kv_heads: n[1],
        stride: n[2],
        scale: n[3],
        launch: grid,
        places: Box::new(m[b[3].id]),
        pages: Box::new(m[b[4].id]),
        tiles: Box::new(m[b[6].id]),
        limits: Box::new(m[b[7].id]),
        queries: Box::new(m[b[0].id]),
        keys: Box::new(m[b[1].id]),
        values: Box::new(m[b[2].id]),
        base: Box::new(m[b[5].id]),
    };
    put(put(m, b[8], Value::Lost), b[5], seen)
}

/// Partial results of tiles, where the rows go, and the tiles.
pub open spec fn does_join_parts(m: Cells, b: Seq<Buffer>, n: Seq<u32>, grid: (int, int, int), threads: int) -> Cells {
    put(
        m,
        b[1],
        Value::Joined {
            heads: n[0],
            launch: grid,
            tiles: Box::new(m[b[2].id]),
            parts: Box::new(m[b[0].id]),
            base: Box::new(m[b[1].id]),
        },
    )
}

/// Queries, the key cache, the value cache, places, pages, which rows, where the
/// partial results go, and how far each row may look.
pub open spec fn does_decode_limited(m: Cells, b: Seq<Buffer>, n: Seq<u32>, grid: (int, int, int), threads: int) -> Cells {
    put(
        m,
        b[6],
        Value::PartialUpTo {
            heads: n[0],
            kv_heads: n[1],
            stride: n[2],
            scale: n[3],
            splits: n[4],
            least: n[5],
            launch: grid,
            places: Box::new(m[b[3].id]),
            pages: Box::new(m[b[4].id]),
            picks: Box::new(m[b[5].id]),
            limits: Box::new(m[b[7].id]),
            queries: Box::new(m[b[0].id]),
            keys: Box::new(m[b[1].id]),
            values: Box::new(m[b[2].id]),
        },
    )
}

/// Rows gated by the other half of their query projection, in place.
pub open spec fn does_head_gate(m: Cells, b: Seq<Buffer>, n: Seq<u32>, grid: (int, int, int), threads: int) -> Cells {
    put(
        m,
        b[0],
        if fills(grid, threads, n[0] as int) {
            Value::HeadsGated { count: n[0], gate: Box::new(m[b[1].id]), of: Box::new(m[b[0].id]) }
        } else {
            Value::Lost
        },
    )
}

/// Router logits, and where the picks and their weights go.
pub open spec fn does_expert_route(m: Cells, b: Seq<Buffer>, n: Seq<u32>, grid: (int, int, int), threads: int) -> Cells {
    let part = |weights: bool| Value::Routed {
        weights,
        bias: 0,
        rows: grid.0,
        of: Box::new(m[b[0].id]),
    };
    put(put(m, b[1], part(false)), b[2], part(true))
}

/// Gate and up planes of every expert, rows, lists, counts, tiles, and where both
/// halves go.
pub open spec fn does_expert_pairs(m: Cells, b: Seq<Buffer>, n: Seq<u32>, grid: (int, int, int), threads: int) -> Cells {
    put(
        m,
        b[6],
        Value::PairTiles {
            gate: b[0].id,
            up: b[1].id,
            k: n[0],
            n: n[1],
            rows: n[2],
            launch: grid,
            lists: Box::new(m[b[3].id]),
            counts: Box::new(m[b[4].id]),
            tiles: Box::new(m[b[5].id]),
            of: Box::new(m[b[2].id]),
        },
    )
}

/// Gate and up planes of every expert, rows, picks, and where both halves go.
pub open spec fn does_expert_pairs_each(m: Cells, b: Seq<Buffer>, n: Seq<u32>, grid: (int, int, int), threads: int) -> Cells {
    put(
        m,
        b[4],
        Value::PairRows {
            gate: b[0].id,
            up: b[1].id,
            k: n[0],
            n: n[1],
            rows: n[2],
            launch: grid,
            picks: Box::new(m[b[3].id]),
            of: Box::new(m[b[2].id]),
        },
    )
}

/// Both halves of every pick: the activated gate times the other, in place.
pub open spec fn does_expert_gate(m: Cells, b: Seq<Buffer>, n: Seq<u32>, grid: (int, int, int), threads: int) -> Cells {
    put(
        m,
        b[0],
        if fills(grid, threads, n[0] * n[1]) {
            Value::PairGated { width: n[0], picks: n[1], of: Box::new(m[b[0].id]) }
        } else {
            Value::Lost
        },
    )
}

/// Down planes of every expert, an idle plane, gated halves, lists, counts,
/// tiles, and where the results go.
pub open spec fn does_expert_back(m: Cells, b: Seq<Buffer>, n: Seq<u32>, grid: (int, int, int), threads: int) -> Cells {
    put(
        m,
        b[6],
        Value::ExpertTiles {
            up: false,
            plane: b[0].id,
            k: n[0],
            n: n[1],
            rows: n[2],
            launch: grid,
            lists: Box::new(m[b[3].id]),
            counts: Box::new(m[b[4].id]),
            tiles: Box::new(m[b[5].id]),
            of: Box::new(m[b[2].id]),
        },
    )
}

/// Down planes of every expert, gated halves, picks, and where the results go.
pub open spec fn does_expert_back_each(m: Cells, b: Seq<Buffer>, n: Seq<u32>, grid: (int, int, int), threads: int) -> Cells {
    put(
        m,
        b[3],
        Value::ExpertRows {
            up: false,
            plane: b[0].id,
            k: n[0],
            n: n[1],
            rows: n[2],
            launch: grid,
            picks: Box::new(m[b[2].id]),
            of: Box::new(m[b[1].id]),
        },
    )
}

/// Expert results, their weights, how much the shared expert counts, and the
/// shared expert, which they are added to.
pub open spec fn does_expert_fold(m: Cells, b: Seq<Buffer>, n: Seq<u32>, grid: (int, int, int), threads: int) -> Cells {
    put(
        m,
        b[3],
        if fills(grid, threads, n[0] * n[1]) {
            Value::FoldedBeside {
                width: n[0],
                rows: n[1],
                weights: Box::new(m[b[1].id]),
                shared: Box::new(m[b[2].id]),
                experts: Box::new(m[b[0].id]),
                base: Box::new(m[b[3].id]),
            }
        } else {
            Value::Lost
        },
    )
}

/// Hidden rows, and the taps that keep them.
pub open spec fn does_tap(m: Cells, b: Seq<Buffer>, n: Seq<u32>, grid: (int, int, int), threads: int) -> Cells {
    put(
        m,
        b[1],
        if fills(grid, threads, n[0] * n[1]) {
            Value::Tapped {
                tap: n[2],
                width: n[0],
                rows: n[1],
                new: Box::new(m[b[0].id]),
                old: Box::new(m[b[1].id]),
            }
        } else {
            Value::Lost
        },
    )
}

/// Two planes of rows, and where they go side by side.
pub open spec fn does_beside(m: Cells, b: Seq<Buffer>, n: Seq<u32>, grid: (int, int, int), threads: int) -> Cells {
    put(
        m,
        b[2],
        if fills(grid, threads, n[0] * n[1]) {
            Value::Paired {
                width: n[0],
                rows: n[1],
                first: Box::new(m[b[0].id]),
                second: Box::new(m[b[1].id]),
            }
        } else {
            Value::Lost
        },
    )
}

/// Hidden rows, the rows kept of the sequences, places, bounds, and where the
/// rows before go.
pub open spec fn does_previous(m: Cells, b: Seq<Buffer>, n: Seq<u32>, grid: (int, int, int), threads: int) -> Cells {
    put(
        m,
        b[4],
        if fills(grid, threads, n[0] * n[1]) {
            Value::Previous {
                width: n[0],
                rows: n[1],
                kept: n[2] == 1,
                hidden: Box::new(m[b[0].id]),
                pending: Box::new(m[b[1].id]),
                places: Box::new(m[b[2].id]),
                bounds: Box::new(m[b[3].id]),
            }
        } else {
            Value::Lost
        },
    )
}

/// Hidden rows, the rows kept of the sequences, places, bounds and marks.
pub open spec fn does_publish(m: Cells, b: Seq<Buffer>, n: Seq<u32>, grid: (int, int, int), threads: int) -> Cells {
    put(
        m,
        b[1],
        if fills(grid, threads, n[0] * n[1]) {
            Value::Pending {
                width: n[0],
                rows: n[1],
                places: Box::new(m[b[2].id]),
                bounds: Box::new(m[b[3].id]),
                marks: Box::new(m[b[4].id]),
                new: Box::new(m[b[0].id]),
                old: Box::new(m[b[1].id]),
            }
        } else {
            Value::Lost
        },
    )
}

/// Picks, places, chains, rotary places and limits: the picks join the chains
/// and the rows stand one further.
pub open spec fn does_advance(m: Cells, b: Seq<Buffer>, n: Seq<u32>, grid: (int, int, int), threads: int) -> Cells {
    let further = |v: Value| Value::Further { rows: n[0], of: Box::new(v) };
    let chains = put(
        m,
        b[2],
        if fills(grid, threads, n[0] as int) {
            Value::Drafted {
                rows: n[0],
                step: n[1],
                of: n[2],
                new: Box::new(m[b[0].id]),
                old: Box::new(m[b[2].id]),
            }
        } else {
            Value::Lost
        },
    );
    put(
        put(put(chains, b[1], further(m[b[1].id])), b[3], further(m[b[3].id])),
        b[4],
        further(m[b[4].id]),
    )
}

/// Rows of an image, places of rows, and the rows.
pub open spec fn does_inject(m: Cells, b: Seq<Buffer>, n: Seq<u32>, grid: (int, int, int), threads: int) -> Cells {
    put(
        m,
        b[2],
        if fills(grid, threads, n[0] * n[1]) {
            Value::Shown {
                width: n[0],
                rows: n[1],
                slot: n[2],
                offset: n[3],
                count: n[4],
                places: Box::new(m[b[1].id]),
                image: Box::new(m[b[0].id]),
                old: Box::new(m[b[2].id]),
            }
        } else {
            Value::Lost
        },
    )
}

/// A norm of draft rows.
pub open spec fn does_draft_norm(m: Cells, b: Seq<Buffer>, n: Seq<u32>, grid: (int, int, int), threads: int) -> Cells {
    put(
        m,
        b[2],
        Value::Normed {
            gain: b[1].id,
            width: n[0],
            form: n[1],
            eps: n[2],
            rows: grid.0,
            of: Box::new(m[b[0].id]),
        },
    )
}

/// Keys, values, the gain of the keys, places, pages, both rings, rotary
/// places and bounds.
pub open spec fn does_draft_store(m: Cells, b: Seq<Buffer>, n: Seq<u32>, grid: (int, int, int), threads: int) -> Cells {
    let ringed = |turned: Option<(u32, u32, u32, Box<Value>)>, of: Value, old: Value| Value::Ringed {
        turned,
        heads: n[0],
        stride: n[1],
        ring: n[4],
        drafted: n[5],
        rows: grid.1,
        places: Box::new(m[b[3].id]),
        pages: Box::new(m[b[4].id]),
        bounds: Box::new(m[b[8].id]),
        new: Box::new(of),
        old: Box::new(old),
    };
    put(
        put(
            m,
            b[5],
            ringed(Some((b[2].id, n[2], n[3], Box::new(m[b[7].id]))), m[b[0].id], m[b[5].id]),
        ),
        b[6],
        ringed(None, m[b[1].id], m[b[6].id]),
    )
}

/// Heads, their gain, rotary places, and where they go.
pub open spec fn does_draft_turn(m: Cells, b: Seq<Buffer>, n: Seq<u32>, grid: (int, int, int), threads: int) -> Cells {
    put(
        m,
        b[3],
        Value::DraftTurned {
            heads: n[0],
            gain: b[1].id,
            eps: n[2],
            base: n[3],
            rows: grid.1,
            places: Box::new(m[b[2].id]),
            of: Box::new(m[b[0].id]),
        },
    )
}

/// Queries, both rings, places, pages, where the rows go, and tiles.
pub open spec fn does_draft_attend(m: Cells, b: Seq<Buffer>, n: Seq<u32>, grid: (int, int, int), threads: int) -> Cells {
    put(
        m,
        b[5],
        Value::DraftSeen {
            parts: false,
            heads: n[0],
            groups: n[1],
            stride: n[2],
            scale: n[3],
            rows: n[4],
            launch: grid,
            places: Box::new(m[b[3].id]),
            pages: Box::new(m[b[4].id]),
            tiles: Box::new(m[b[6].id]),
            queries: Box::new(m[b[0].id]),
            keys: Box::new(m[b[1].id]),
            values: Box::new(m[b[2].id]),
        },
    )
}

/// The same in parts, which stay behind the queries.
pub open spec fn does_draft_parts(m: Cells, b: Seq<Buffer>, n: Seq<u32>, grid: (int, int, int), threads: int) -> Cells {
    put(
        m,
        b[0],
        Value::DraftSeen {
            parts: true,
            heads: n[0],
            groups: n[1],
            stride: n[2],
            scale: n[3],
            rows: n[4],
            launch: grid,
            places: Box::new(m[b[3].id]),
            pages: Box::new(m[b[4].id]),
            tiles: Box::new(m[b[6].id]),
            queries: Box::new(m[b[0].id]),
            keys: Box::new(m[b[1].id]),
            values: Box::new(m[b[2].id]),
        },
    )
}

/// Parts, and where the rows go.
pub open spec fn does_draft_join(m: Cells, b: Seq<Buffer>, n: Seq<u32>, grid: (int, int, int), threads: int) -> Cells {
    put(m, b[1], Value::DraftJoined { rows: n[0], launch: grid.0, of: Box::new(m[b[0].id]) })
}

/// Rows, the base taps, the coefficients of the rows, and where they go.
pub open spec fn does_draft_conv(m: Cells, b: Seq<Buffer>, n: Seq<u32>, grid: (int, int, int), threads: int) -> Cells {
    put(
        m,
        b[3],
        if fills(grid, threads, n[1] * (n[0] as int / 4)) {
            Value::Mixed {
                base: b[1].id,
                width: n[0],
                rows: n[1],
                block: n[2],
                behind: n[3],
                coefficients: Box::new(m[b[2].id]),
                of: Box::new(m[b[0].id]),
            }
        } else {
            Value::Lost
        },
    )
}

/// Logits, and where the candidates of each stretch go.
pub open spec fn does_top_parts(m: Cells, b: Seq<Buffer>, n: Seq<u32>, grid: (int, int, int), threads: int) -> Cells {
    put(
        m,
        b[1],
        Value::BestOfParts { vocab: n[0], parts: grid.0, rows: grid.1, of: Box::new(m[b[0].id]) },
    )
}

/// Candidates of the stretches, and where the best of a row go.
pub open spec fn does_top_merge(m: Cells, b: Seq<Buffer>, n: Seq<u32>, grid: (int, int, int), threads: int) -> Cells {
    put(m, b[1], Value::Best { candidates: n[0], rows: grid.0, of: Box::new(m[b[0].id]) })
}

/// Candidates, both tables of the selector, its hidden rows, the tokens, and
/// where the path goes.
pub open spec fn does_select(m: Cells, b: Seq<Buffer>, n: Seq<u32>, grid: (int, int, int), threads: int) -> Cells {
    put(
        m,
        b[5],
        Value::Path {
            block: n[0],
            before: b[1].id,
            before_form: n[1],
            behind: b[2].id,
            behind_form: n[2],
            sequences: grid.0,
            best: Box::new(m[b[0].id]),
            hidden: Box::new(m[b[3].id]),
            ids: Box::new(m[b[4].id]),
        },
    )
}

/// Where the coefficients go.
pub open spec fn does_taps(m: Cells, b: Seq<Buffer>, n: Seq<u32>, grid: (int, int, int), threads: int) -> Cells {
    put(
        m,
        b[0],
        if fills(grid, threads, n[1] as int) {
            Value::Weights { from: n[0], to: n[1], taps: n[2] }
        } else {
            Value::Lost
        },
    )
}

/// Pixels, coefficients of their width, and where they go.
pub open spec fn does_narrow(m: Cells, b: Seq<Buffer>, n: Seq<u32>, grid: (int, int, int), threads: int) -> Cells {
    put(
        m,
        b[2],
        if fills(grid, threads, n[1] * n[2] * 3) {
            Value::Narrowed {
                width: n[0],
                to: n[1],
                height: n[2],
                taps: n[3],
                coefficients: Box::new(m[b[1].id]),
                of: Box::new(m[b[0].id]),
            }
        } else {
            Value::Lost
        },
    )
}

/// Pixels, coefficients of their height, and where the patches go.
pub open spec fn does_cut(m: Cells, b: Seq<Buffer>, n: Seq<u32>, grid: (int, int, int), threads: int) -> Cells {
    put(
        m,
        b[2],
        if fills(grid, threads, (n[0] as int / 14) * (n[1] as int / 14) * 588) {
            Value::Patches {
                width: n[0],
                height: n[1],
                taps: n[2],
                first: n[3],
                coefficients: Box::new(m[b[1].id]),
                of: Box::new(m[b[0].id]),
                old: Box::new(m[b[2].id]),
            }
        } else {
            Value::Lost
        },
    )
}

/// Rows, and the table of positions.
pub open spec fn does_position(m: Cells, b: Seq<Buffer>, n: Seq<u32>, grid: (int, int, int), threads: int) -> Cells {
    put(
        m,
        b[0],
        if fills(grid, threads, n[0] * n[1] * 1152) {
            Value::Positioned {
                table: b[1].id,
                across: n[0],
                down: n[1],
                first: n[2],
                of: Box::new(m[b[0].id]),
            }
        } else {
            Value::Lost
        },
    )
}

/// A plane, rows, where they go, and the bias. The last number asks for the
/// bias, for what was there, and for the activation.
pub open spec fn does_biased(m: Cells, b: Seq<Buffer>, n: Seq<u32>, grid: (int, int, int), threads: int) -> Cells {
    put(
        m,
        b[2],
        if grid.0 * 64 >= n[1] && grid.1 * 32 >= n[2] && n[3] < 4 {
            Value::Biased {
                plane: b[0].id,
                bias: if n[3] == 0 { None } else { Some(b[3].id) },
                k: n[0],
                n: n[1],
                rows: n[2],
                active: n[3] == 3,
                base: if n[3] == 2 { Some(Box::new(m[b[2].id])) } else { None },
                of: Box::new(m[b[1].id]),
            }
        } else {
            Value::Lost
        },
    )
}

/// Rows, gain, bias, and where they go.
pub open spec fn does_centre(m: Cells, b: Seq<Buffer>, n: Seq<u32>, grid: (int, int, int), threads: int) -> Cells {
    put(
        m,
        b[3],
        Value::Centred {
            gain: b[1].id,
            bias: b[2].id,
            width: n[0],
            eps: n[1],
            rows: grid.0,
            of: Box::new(m[b[0].id]),
        },
    )
}

/// Rows, where their heads go, and where the rows stand.
pub open spec fn does_tower_heads(m: Cells, b: Seq<Buffer>, n: Seq<u32>, grid: (int, int, int), threads: int) -> Cells {
    put(
        m,
        b[1],
        if fills(grid, threads, (n[0] + 64) * 1280) {
            Value::TowerHeads {
                rows: n[0],
                turned: if n[1] == 1 { Some(Box::new(m[b[2].id])) } else { None },
                of: Box::new(m[b[0].id]),
            }
        } else {
            Value::Lost
        },
    )
}

/// Queries, keys, values, where the result goes, and tiles.
pub open spec fn does_tower_attend(m: Cells, b: Seq<Buffer>, n: Seq<u32>, grid: (int, int, int), threads: int) -> Cells {
    put(
        m,
        b[3],
        Value::TowerSeen {
            launch: grid,
            tiles: Box::new(m[b[4].id]),
            queries: Box::new(m[b[0].id]),
            keys: Box::new(m[b[1].id]),
            values: Box::new(m[b[2].id]),
        },
    )
}

/// Numbers, in place.
pub open spec fn does_activate(m: Cells, b: Seq<Buffer>, n: Seq<u32>, grid: (int, int, int), threads: int) -> Cells {
    put(
        m,
        b[0],
        if fills(grid, threads, n[0] as int) {
            Value::Activated { count: n[0], of: Box::new(m[b[0].id]) }
        } else {
            Value::Lost
        },
    )
}

/// Cells of all images, and where those of one go.
pub open spec fn does_extract(m: Cells, b: Seq<Buffer>, n: Seq<u32>, grid: (int, int, int), threads: int) -> Cells {
    put(
        m,
        b[1],
        if fills(grid, threads, n[1] * 1024) {
            Value::Extracted { first: n[0], count: n[1], of: Box::new(m[b[0].id]) }
        } else {
            Value::Lost
        },
    )
}

/// Rows, signs, and where the turned rows go.
pub open spec fn does_rotate(m: Cells, b: Seq<Buffer>, n: Seq<u32>, grid: (int, int, int), threads: int) -> Cells {
    put(
        m,
        b[2],
        if grid.0 * 1024 == n[0] && grid.1 == n[1] {
            Value::Rotated { signs: b[1].id, width: n[0], rows: n[1], of: Box::new(m[b[0].id]) }
        } else {
            Value::Lost
        },
    )
}

/// The table, tokens, signs, and where the rows go.
pub open spec fn does_embed_rotated(m: Cells, b: Seq<Buffer>, n: Seq<u32>, grid: (int, int, int), threads: int) -> Cells {
    put(
        m,
        b[3],
        if grid.0 * 1024 == n[0] && grid.1 == n[2] {
            Value::EmbeddedRotated {
                table: b[0].id,
                signs: b[2].id,
                width: n[0],
                vocab: n[1],
                rows: n[2],
                ids: Box::new(m[b[1].id]),
            }
        } else {
            Value::Lost
        },
    )
}

/// A launch on whole buffers.
#[verifier::opaque]
pub open spec fn launched(
    m: Cells,
    w: Work,
    b: Seq<Buffer>,
    n: Seq<u32>,
    grid: (int, int, int),
    threads: int,
) -> Cells {
    match w {
        Work::Embed => does_embed(m, b, n, grid, threads),
        Work::Norm => does_norm(m, b, n, grid, threads),
        Work::Gate => does_gate(m, b, n, grid, threads),
        Work::Residual => does_residual(m, b, n, grid, threads),
        Work::NormPicked => does_norm_picked(m, b, n, grid, threads),
        Work::Align => does_align(m, b, n, grid, threads),
        Work::Tile => does_tile(m, b, n, grid, threads),
        Work::MergeParts => does_merge_parts(m, b, n, grid, threads),
        Work::ResidualNorm => does_residual_norm(m, b, n, grid, threads),
        Work::Patch => does_patch(m, b, n, grid, threads),
        Work::Argmax => does_argmax(m, b, n, grid, threads),
        Work::HeadTurn => does_head_turn(m, b, n, grid, threads),
        Work::BatchAttend => does_batch_attend(m, b, n, grid, threads),
        Work::Pool => does_pool(m, b, n, grid, threads),
        Work::Score => does_score(m, b, n, grid, threads),
        Work::Multiply { columns, rows } => does_multiply(m, b, n, grid, columns, rows),
        Work::MultiplyMany { columns, rows } => does_multiply_many(m, b, n, grid, columns, rows),
        Work::WindowConv => does_window_conv(m, b, n, grid, threads),
        Work::WindowSlide => does_window_slide(m, b, n, grid, threads),
        Work::Scan => does_scan(m, b, n, grid, threads),
        Work::SpaceGates => does_space_gates(m, b, n, grid, threads),
        Work::SpaceMatrix => does_space_matrix(m, b, n, grid, threads),
        Work::SpaceDelta => does_space_delta(m, b, n, grid, threads),
        Work::SpaceStates => does_space_states(m, b, n, grid, threads),
        Work::SpaceOutput => does_space_output(m, b, n, grid, threads),
        Work::SpaceNorm => does_space_norm(m, b, n, grid, threads),
        Work::Store => does_store(m, b, n, grid, threads),
        Work::Append => does_append(m, b, n, grid, threads),
        Work::DecodeParts => does_decode_parts(m, b, n, grid, threads),
        Work::Route => does_route(m, b, n, grid, threads),
        Work::ExpertsUp => does_experts_up(m, b, n, grid, threads),
        Work::ExpertsUpEach => does_experts_up_each(m, b, n, grid, threads),
        Work::ExpertsDown => does_experts_down(m, b, n, grid, threads),
        Work::ExpertsDownEach => does_experts_down_each(m, b, n, grid, threads),
        Work::Square => does_square(m, b, n, grid, threads),
        Work::Fold => does_fold(m, b, n, grid, threads),
        Work::StateCopy => does_state_copy(m, b, n, grid, threads),
        Work::ShortConv => does_short_conv(m, b, n, grid, threads),
        Work::HeadNorm => does_head_norm(m, b, n, grid, threads),
        Work::NetGates => does_net_gates(m, b, n, grid, threads),
        Work::NetVerify => does_net_verify(m, b, n, grid, threads),
        Work::NetSlide => does_net_slide(m, b, n, grid, threads),
        Work::NetRecur => does_net_recur(m, b, n, grid, threads),
        Work::ChunkDots => does_chunk_dots(m, b, n, grid, threads),
        Work::ChunkPrepare => does_chunk_prepare(m, b, n, grid, threads),
        Work::ChunkWalk => does_chunk_walk(m, b, n, grid, threads),
        Work::NetNorm => does_net_norm(m, b, n, grid, threads),
        Work::EntryCopy => does_entry_copy(m, b, n, grid, threads),
        Work::QueryTurn => does_query_turn(m, b, n, grid, threads),
        Work::KeyStore => does_key_store(m, b, n, grid, threads),
        Work::Stage => does_stage(m, b, n, grid, threads),
        Work::StageTiles => does_stage_tiles(m, b, n, grid, threads),
        Work::AppendLimited => does_append_limited(m, b, n, grid, threads),
        Work::AppendPrepared => does_append_prepared(m, b, n, grid, threads),
        Work::JoinParts => does_join_parts(m, b, n, grid, threads),
        Work::DecodeLimited => does_decode_limited(m, b, n, grid, threads),
        Work::HeadGate => does_head_gate(m, b, n, grid, threads),
        Work::ExpertRoute => does_expert_route(m, b, n, grid, threads),
        Work::ExpertPairs => does_expert_pairs(m, b, n, grid, threads),
        Work::ExpertPairsEach => does_expert_pairs_each(m, b, n, grid, threads),
        Work::ExpertGate => does_expert_gate(m, b, n, grid, threads),
        Work::ExpertBack => does_expert_back(m, b, n, grid, threads),
        Work::ExpertBackEach => does_expert_back_each(m, b, n, grid, threads),
        Work::ExpertFold => does_expert_fold(m, b, n, grid, threads),
        Work::Tap => does_tap(m, b, n, grid, threads),
        Work::Beside => does_beside(m, b, n, grid, threads),
        Work::Previous => does_previous(m, b, n, grid, threads),
        Work::Publish => does_publish(m, b, n, grid, threads),
        Work::Advance => does_advance(m, b, n, grid, threads),
        Work::Inject => does_inject(m, b, n, grid, threads),
        Work::DraftNorm => does_draft_norm(m, b, n, grid, threads),
        Work::DraftStore => does_draft_store(m, b, n, grid, threads),
        Work::DraftTurn => does_draft_turn(m, b, n, grid, threads),
        Work::DraftAttend => does_draft_attend(m, b, n, grid, threads),
        Work::DraftParts => does_draft_parts(m, b, n, grid, threads),
        Work::DraftJoin => does_draft_join(m, b, n, grid, threads),
        Work::DraftConv => does_draft_conv(m, b, n, grid, threads),
        Work::TopParts => does_top_parts(m, b, n, grid, threads),
        Work::TopMerge => does_top_merge(m, b, n, grid, threads),
        Work::Select => does_select(m, b, n, grid, threads),
        Work::Taps => does_taps(m, b, n, grid, threads),
        Work::Narrow => does_narrow(m, b, n, grid, threads),
        Work::Cut => does_cut(m, b, n, grid, threads),
        Work::Position => does_position(m, b, n, grid, threads),
        Work::Biased => does_biased(m, b, n, grid, threads),
        Work::Centre => does_centre(m, b, n, grid, threads),
        Work::TowerHeads => does_tower_heads(m, b, n, grid, threads),
        Work::TowerAttend => does_tower_attend(m, b, n, grid, threads),
        Work::Activate => does_activate(m, b, n, grid, threads),
        Work::Extract => does_extract(m, b, n, grid, threads),
        Work::Rotate => does_rotate(m, b, n, grid, threads),
        Work::EmbedRotated => does_embed_rotated(m, b, n, grid, threads),
        Work::Unknown => Map::empty(),
    }
}

pub broadcast proof fn lemma_embed(m: Cells, b: Seq<Buffer>, n: Seq<u32>, grid: (int, int, int), threads: int)
    ensures
        #[trigger] launched(m, Work::Embed, b, n, grid, threads) == does_embed(m, b, n, grid, threads),
{
    reveal(launched);
}

pub broadcast proof fn lemma_norm(m: Cells, b: Seq<Buffer>, n: Seq<u32>, grid: (int, int, int), threads: int)
    ensures
        #[trigger] launched(m, Work::Norm, b, n, grid, threads) == does_norm(m, b, n, grid, threads),
{
    reveal(launched);
}

pub broadcast proof fn lemma_gate(m: Cells, b: Seq<Buffer>, n: Seq<u32>, grid: (int, int, int), threads: int)
    ensures
        #[trigger] launched(m, Work::Gate, b, n, grid, threads) == does_gate(m, b, n, grid, threads),
{
    reveal(launched);
}

pub broadcast proof fn lemma_residual(m: Cells, b: Seq<Buffer>, n: Seq<u32>, grid: (int, int, int), threads: int)
    ensures
        #[trigger] launched(m, Work::Residual, b, n, grid, threads) == does_residual(m, b, n, grid, threads),
{
    reveal(launched);
}

pub broadcast proof fn lemma_norm_picked(m: Cells, b: Seq<Buffer>, n: Seq<u32>, grid: (int, int, int), threads: int)
    ensures
        #[trigger] launched(m, Work::NormPicked, b, n, grid, threads) == does_norm_picked(m, b, n, grid, threads),
{
    reveal(launched);
}

pub broadcast proof fn lemma_align(m: Cells, b: Seq<Buffer>, n: Seq<u32>, grid: (int, int, int), threads: int)
    ensures
        #[trigger] launched(m, Work::Align, b, n, grid, threads) == does_align(m, b, n, grid, threads),
{
    reveal(launched);
}

pub broadcast proof fn lemma_tile(m: Cells, b: Seq<Buffer>, n: Seq<u32>, grid: (int, int, int), threads: int)
    ensures
        #[trigger] launched(m, Work::Tile, b, n, grid, threads) == does_tile(m, b, n, grid, threads),
{
    reveal(launched);
}

pub broadcast proof fn lemma_merge_parts(m: Cells, b: Seq<Buffer>, n: Seq<u32>, grid: (int, int, int), threads: int)
    ensures
        #[trigger] launched(m, Work::MergeParts, b, n, grid, threads) == does_merge_parts(m, b, n, grid, threads),
{
    reveal(launched);
}

pub broadcast proof fn lemma_residual_norm(m: Cells, b: Seq<Buffer>, n: Seq<u32>, grid: (int, int, int), threads: int)
    ensures
        #[trigger] launched(m, Work::ResidualNorm, b, n, grid, threads) == does_residual_norm(m, b, n, grid, threads),
{
    reveal(launched);
}

pub broadcast proof fn lemma_patch(m: Cells, b: Seq<Buffer>, n: Seq<u32>, grid: (int, int, int), threads: int)
    ensures
        #[trigger] launched(m, Work::Patch, b, n, grid, threads) == does_patch(m, b, n, grid, threads),
{
    reveal(launched);
}

pub broadcast proof fn lemma_argmax(m: Cells, b: Seq<Buffer>, n: Seq<u32>, grid: (int, int, int), threads: int)
    ensures
        #[trigger] launched(m, Work::Argmax, b, n, grid, threads) == does_argmax(m, b, n, grid, threads),
{
    reveal(launched);
}

/// Works of every family.
pub broadcast group group_shared {
    lemma_embed,
    lemma_norm,
    lemma_gate,
    lemma_residual,
    lemma_norm_picked,
    lemma_align,
    lemma_tile,
    lemma_merge_parts,
    lemma_residual_norm,
    lemma_patch,
    lemma_argmax,
}

pub broadcast proof fn lemma_head_turn(m: Cells, b: Seq<Buffer>, n: Seq<u32>, grid: (int, int, int), threads: int)
    ensures
        #[trigger] launched(m, Work::HeadTurn, b, n, grid, threads) == does_head_turn(m, b, n, grid, threads),
{
    reveal(launched);
}

pub broadcast proof fn lemma_batch_attend(m: Cells, b: Seq<Buffer>, n: Seq<u32>, grid: (int, int, int), threads: int)
    ensures
        #[trigger] launched(m, Work::BatchAttend, b, n, grid, threads) == does_batch_attend(m, b, n, grid, threads),
{
    reveal(launched);
}

pub broadcast proof fn lemma_pool(m: Cells, b: Seq<Buffer>, n: Seq<u32>, grid: (int, int, int), threads: int)
    ensures
        #[trigger] launched(m, Work::Pool, b, n, grid, threads) == does_pool(m, b, n, grid, threads),
{
    reveal(launched);
}

pub broadcast proof fn lemma_score(m: Cells, b: Seq<Buffer>, n: Seq<u32>, grid: (int, int, int), threads: int)
    ensures
        #[trigger] launched(m, Work::Score, b, n, grid, threads) == does_score(m, b, n, grid, threads),
{
    reveal(launched);
}

/// Works of the text encoder.
pub broadcast group group_encoder {
    lemma_head_turn,
    lemma_batch_attend,
    lemma_pool,
    lemma_score,
}

pub broadcast proof fn lemma_multiply(
    m: Cells,
    columns: int,
    rows: int,
    b: Seq<Buffer>,
    n: Seq<u32>,
    grid: (int, int, int),
    threads: int,
)
    ensures
        #[trigger] launched(m, (Work::Multiply { columns, rows }), b, n, grid, threads) == does_multiply(
            m,
            b,
            n,
            grid,
            columns,
            rows,
        ),
{
    reveal(launched);
}

pub broadcast proof fn lemma_multiply_many(
    m: Cells,
    columns: int,
    rows: int,
    b: Seq<Buffer>,
    n: Seq<u32>,
    grid: (int, int, int),
    threads: int,
)
    ensures
        #[trigger] launched(m, (Work::MultiplyMany { columns, rows }), b, n, grid, threads) == does_multiply_many(
            m,
            b,
            n,
            grid,
            columns,
            rows,
        ),
{
    reveal(launched);
}

/// Products with one plane.
pub broadcast group group_planes {
    lemma_multiply,
    lemma_multiply_many,
}

pub broadcast proof fn lemma_window_conv(m: Cells, b: Seq<Buffer>, n: Seq<u32>, grid: (int, int, int), threads: int)
    ensures
        #[trigger] launched(m, Work::WindowConv, b, n, grid, threads) == does_window_conv(m, b, n, grid, threads),
{
    reveal(launched);
}

pub broadcast proof fn lemma_window_slide(m: Cells, b: Seq<Buffer>, n: Seq<u32>, grid: (int, int, int), threads: int)
    ensures
        #[trigger] launched(m, Work::WindowSlide, b, n, grid, threads) == does_window_slide(m, b, n, grid, threads),
{
    reveal(launched);
}

pub broadcast proof fn lemma_scan(m: Cells, b: Seq<Buffer>, n: Seq<u32>, grid: (int, int, int), threads: int)
    ensures
        #[trigger] launched(m, Work::Scan, b, n, grid, threads) == does_scan(m, b, n, grid, threads),
{
    reveal(launched);
}

pub broadcast proof fn lemma_space_gates(m: Cells, b: Seq<Buffer>, n: Seq<u32>, grid: (int, int, int), threads: int)
    ensures
        #[trigger] launched(m, Work::SpaceGates, b, n, grid, threads) == does_space_gates(m, b, n, grid, threads),
{
    reveal(launched);
}

pub broadcast proof fn lemma_space_matrix(m: Cells, b: Seq<Buffer>, n: Seq<u32>, grid: (int, int, int), threads: int)
    ensures
        #[trigger] launched(m, Work::SpaceMatrix, b, n, grid, threads) == does_space_matrix(m, b, n, grid, threads),
{
    reveal(launched);
}

pub broadcast proof fn lemma_space_delta(m: Cells, b: Seq<Buffer>, n: Seq<u32>, grid: (int, int, int), threads: int)
    ensures
        #[trigger] launched(m, Work::SpaceDelta, b, n, grid, threads) == does_space_delta(m, b, n, grid, threads),
{
    reveal(launched);
}

pub broadcast proof fn lemma_space_states(m: Cells, b: Seq<Buffer>, n: Seq<u32>, grid: (int, int, int), threads: int)
    ensures
        #[trigger] launched(m, Work::SpaceStates, b, n, grid, threads) == does_space_states(m, b, n, grid, threads),
{
    reveal(launched);
}

pub broadcast proof fn lemma_space_output(m: Cells, b: Seq<Buffer>, n: Seq<u32>, grid: (int, int, int), threads: int)
    ensures
        #[trigger] launched(m, Work::SpaceOutput, b, n, grid, threads) == does_space_output(m, b, n, grid, threads),
{
    reveal(launched);
}

pub broadcast proof fn lemma_space_norm(m: Cells, b: Seq<Buffer>, n: Seq<u32>, grid: (int, int, int), threads: int)
    ensures
        #[trigger] launched(m, Work::SpaceNorm, b, n, grid, threads) == does_space_norm(m, b, n, grid, threads),
{
    reveal(launched);
}

pub broadcast proof fn lemma_store(m: Cells, b: Seq<Buffer>, n: Seq<u32>, grid: (int, int, int), threads: int)
    ensures
        #[trigger] launched(m, Work::Store, b, n, grid, threads) == does_store(m, b, n, grid, threads),
{
    reveal(launched);
}

pub broadcast proof fn lemma_append(m: Cells, b: Seq<Buffer>, n: Seq<u32>, grid: (int, int, int), threads: int)
    ensures
        #[trigger] launched(m, Work::Append, b, n, grid, threads) == does_append(m, b, n, grid, threads),
{
    reveal(launched);
}

pub broadcast proof fn lemma_decode_parts(m: Cells, b: Seq<Buffer>, n: Seq<u32>, grid: (int, int, int), threads: int)
    ensures
        #[trigger] launched(m, Work::DecodeParts, b, n, grid, threads) == does_decode_parts(m, b, n, grid, threads),
{
    reveal(launched);
}

pub broadcast proof fn lemma_route(m: Cells, b: Seq<Buffer>, n: Seq<u32>, grid: (int, int, int), threads: int)
    ensures
        #[trigger] launched(m, Work::Route, b, n, grid, threads) == does_route(m, b, n, grid, threads),
{
    reveal(launched);
}

pub broadcast proof fn lemma_experts_up(m: Cells, b: Seq<Buffer>, n: Seq<u32>, grid: (int, int, int), threads: int)
    ensures
        #[trigger] launched(m, Work::ExpertsUp, b, n, grid, threads) == does_experts_up(m, b, n, grid, threads),
{
    reveal(launched);
}

pub broadcast proof fn lemma_experts_up_each(m: Cells, b: Seq<Buffer>, n: Seq<u32>, grid: (int, int, int), threads: int)
    ensures
        #[trigger] launched(m, Work::ExpertsUpEach, b, n, grid, threads) == does_experts_up_each(m, b, n, grid, threads),
{
    reveal(launched);
}

pub broadcast proof fn lemma_experts_down(m: Cells, b: Seq<Buffer>, n: Seq<u32>, grid: (int, int, int), threads: int)
    ensures
        #[trigger] launched(m, Work::ExpertsDown, b, n, grid, threads) == does_experts_down(m, b, n, grid, threads),
{
    reveal(launched);
}

pub broadcast proof fn lemma_experts_down_each(m: Cells, b: Seq<Buffer>, n: Seq<u32>, grid: (int, int, int), threads: int)
    ensures
        #[trigger] launched(m, Work::ExpertsDownEach, b, n, grid, threads) == does_experts_down_each(m, b, n, grid, threads),
{
    reveal(launched);
}

pub broadcast proof fn lemma_square(m: Cells, b: Seq<Buffer>, n: Seq<u32>, grid: (int, int, int), threads: int)
    ensures
        #[trigger] launched(m, Work::Square, b, n, grid, threads) == does_square(m, b, n, grid, threads),
{
    reveal(launched);
}

pub broadcast proof fn lemma_fold(m: Cells, b: Seq<Buffer>, n: Seq<u32>, grid: (int, int, int), threads: int)
    ensures
        #[trigger] launched(m, Work::Fold, b, n, grid, threads) == does_fold(m, b, n, grid, threads),
{
    reveal(launched);
}

pub broadcast proof fn lemma_state_copy(m: Cells, b: Seq<Buffer>, n: Seq<u32>, grid: (int, int, int), threads: int)
    ensures
        #[trigger] launched(m, Work::StateCopy, b, n, grid, threads) == does_state_copy(m, b, n, grid, threads),
{
    reveal(launched);
}

/// Works of the state-space family.
pub broadcast group group_nemotron {
    lemma_window_conv,
    lemma_window_slide,
    lemma_scan,
    lemma_space_gates,
    lemma_space_matrix,
    lemma_space_delta,
    lemma_space_states,
    lemma_space_output,
    lemma_space_norm,
    lemma_store,
    lemma_append,
    lemma_decode_parts,
    lemma_route,
    lemma_experts_up,
    lemma_experts_up_each,
    lemma_experts_down,
    lemma_experts_down_each,
    lemma_square,
    lemma_fold,
    lemma_state_copy,
}

pub broadcast proof fn lemma_short_conv(m: Cells, b: Seq<Buffer>, n: Seq<u32>, grid: (int, int, int), threads: int)
    ensures
        #[trigger] launched(m, Work::ShortConv, b, n, grid, threads) == does_short_conv(m, b, n, grid, threads),
{
    reveal(launched);
}

pub broadcast proof fn lemma_head_norm(m: Cells, b: Seq<Buffer>, n: Seq<u32>, grid: (int, int, int), threads: int)
    ensures
        #[trigger] launched(m, Work::HeadNorm, b, n, grid, threads) == does_head_norm(m, b, n, grid, threads),
{
    reveal(launched);
}

pub broadcast proof fn lemma_net_gates(m: Cells, b: Seq<Buffer>, n: Seq<u32>, grid: (int, int, int), threads: int)
    ensures
        #[trigger] launched(m, Work::NetGates, b, n, grid, threads) == does_net_gates(m, b, n, grid, threads),
{
    reveal(launched);
}

pub broadcast proof fn lemma_net_verify(m: Cells, b: Seq<Buffer>, n: Seq<u32>, grid: (int, int, int), threads: int)
    ensures
        #[trigger] launched(m, Work::NetVerify, b, n, grid, threads) == does_net_verify(m, b, n, grid, threads),
{
    reveal(launched);
}

pub broadcast proof fn lemma_net_slide(m: Cells, b: Seq<Buffer>, n: Seq<u32>, grid: (int, int, int), threads: int)
    ensures
        #[trigger] launched(m, Work::NetSlide, b, n, grid, threads) == does_net_slide(m, b, n, grid, threads),
{
    reveal(launched);
}

pub broadcast proof fn lemma_net_recur(m: Cells, b: Seq<Buffer>, n: Seq<u32>, grid: (int, int, int), threads: int)
    ensures
        #[trigger] launched(m, Work::NetRecur, b, n, grid, threads) == does_net_recur(m, b, n, grid, threads),
{
    reveal(launched);
}

pub broadcast proof fn lemma_chunk_dots(m: Cells, b: Seq<Buffer>, n: Seq<u32>, grid: (int, int, int), threads: int)
    ensures
        #[trigger] launched(m, Work::ChunkDots, b, n, grid, threads) == does_chunk_dots(m, b, n, grid, threads),
{
    reveal(launched);
}

pub broadcast proof fn lemma_chunk_prepare(m: Cells, b: Seq<Buffer>, n: Seq<u32>, grid: (int, int, int), threads: int)
    ensures
        #[trigger] launched(m, Work::ChunkPrepare, b, n, grid, threads) == does_chunk_prepare(m, b, n, grid, threads),
{
    reveal(launched);
}

pub broadcast proof fn lemma_chunk_walk(m: Cells, b: Seq<Buffer>, n: Seq<u32>, grid: (int, int, int), threads: int)
    ensures
        #[trigger] launched(m, Work::ChunkWalk, b, n, grid, threads) == does_chunk_walk(m, b, n, grid, threads),
{
    reveal(launched);
}

pub broadcast proof fn lemma_net_norm(m: Cells, b: Seq<Buffer>, n: Seq<u32>, grid: (int, int, int), threads: int)
    ensures
        #[trigger] launched(m, Work::NetNorm, b, n, grid, threads) == does_net_norm(m, b, n, grid, threads),
{
    reveal(launched);
}

pub broadcast proof fn lemma_entry_copy(m: Cells, b: Seq<Buffer>, n: Seq<u32>, grid: (int, int, int), threads: int)
    ensures
        #[trigger] launched(m, Work::EntryCopy, b, n, grid, threads) == does_entry_copy(m, b, n, grid, threads),
{
    reveal(launched);
}

pub broadcast proof fn lemma_query_turn(m: Cells, b: Seq<Buffer>, n: Seq<u32>, grid: (int, int, int), threads: int)
    ensures
        #[trigger] launched(m, Work::QueryTurn, b, n, grid, threads) == does_query_turn(m, b, n, grid, threads),
{
    reveal(launched);
}

pub broadcast proof fn lemma_key_store(m: Cells, b: Seq<Buffer>, n: Seq<u32>, grid: (int, int, int), threads: int)
    ensures
        #[trigger] launched(m, Work::KeyStore, b, n, grid, threads) == does_key_store(m, b, n, grid, threads),
{
    reveal(launched);
}

pub broadcast proof fn lemma_stage(m: Cells, b: Seq<Buffer>, n: Seq<u32>, grid: (int, int, int), threads: int)
    ensures
        #[trigger] launched(m, Work::Stage, b, n, grid, threads) == does_stage(m, b, n, grid, threads),
{
    reveal(launched);
}

pub broadcast proof fn lemma_stage_tiles(m: Cells, b: Seq<Buffer>, n: Seq<u32>, grid: (int, int, int), threads: int)
    ensures
        #[trigger] launched(m, Work::StageTiles, b, n, grid, threads) == does_stage_tiles(m, b, n, grid, threads),
{
    reveal(launched);
}

pub broadcast proof fn lemma_append_limited(m: Cells, b: Seq<Buffer>, n: Seq<u32>, grid: (int, int, int), threads: int)
    ensures
        #[trigger] launched(m, Work::AppendLimited, b, n, grid, threads) == does_append_limited(m, b, n, grid, threads),
{
    reveal(launched);
}

pub broadcast proof fn lemma_append_prepared(m: Cells, b: Seq<Buffer>, n: Seq<u32>, grid: (int, int, int), threads: int)
    ensures
        #[trigger] launched(m, Work::AppendPrepared, b, n, grid, threads) == does_append_prepared(m, b, n, grid, threads),
{
    reveal(launched);
}

pub broadcast proof fn lemma_join_parts(m: Cells, b: Seq<Buffer>, n: Seq<u32>, grid: (int, int, int), threads: int)
    ensures
        #[trigger] launched(m, Work::JoinParts, b, n, grid, threads) == does_join_parts(m, b, n, grid, threads),
{
    reveal(launched);
}

pub broadcast proof fn lemma_decode_limited(m: Cells, b: Seq<Buffer>, n: Seq<u32>, grid: (int, int, int), threads: int)
    ensures
        #[trigger] launched(m, Work::DecodeLimited, b, n, grid, threads) == does_decode_limited(m, b, n, grid, threads),
{
    reveal(launched);
}

pub broadcast proof fn lemma_head_gate(m: Cells, b: Seq<Buffer>, n: Seq<u32>, grid: (int, int, int), threads: int)
    ensures
        #[trigger] launched(m, Work::HeadGate, b, n, grid, threads) == does_head_gate(m, b, n, grid, threads),
{
    reveal(launched);
}

/// Works of the gated recurrent family.
pub broadcast group group_hybrid {
    lemma_short_conv,
    lemma_head_norm,
    lemma_net_gates,
    lemma_net_verify,
    lemma_net_slide,
    lemma_net_recur,
    lemma_chunk_dots,
    lemma_chunk_prepare,
    lemma_chunk_walk,
    lemma_net_norm,
    lemma_entry_copy,
    lemma_query_turn,
    lemma_key_store,
    lemma_stage,
    lemma_stage_tiles,
    lemma_append_limited,
    lemma_append_prepared,
    lemma_join_parts,
    lemma_decode_limited,
    lemma_head_gate,
}

pub broadcast proof fn lemma_expert_route(m: Cells, b: Seq<Buffer>, n: Seq<u32>, grid: (int, int, int), threads: int)
    ensures
        #[trigger] launched(m, Work::ExpertRoute, b, n, grid, threads) == does_expert_route(m, b, n, grid, threads),
{
    reveal(launched);
}

pub broadcast proof fn lemma_expert_pairs(m: Cells, b: Seq<Buffer>, n: Seq<u32>, grid: (int, int, int), threads: int)
    ensures
        #[trigger] launched(m, Work::ExpertPairs, b, n, grid, threads) == does_expert_pairs(m, b, n, grid, threads),
{
    reveal(launched);
}

pub broadcast proof fn lemma_expert_pairs_each(m: Cells, b: Seq<Buffer>, n: Seq<u32>, grid: (int, int, int), threads: int)
    ensures
        #[trigger] launched(m, Work::ExpertPairsEach, b, n, grid, threads) == does_expert_pairs_each(m, b, n, grid, threads),
{
    reveal(launched);
}

pub broadcast proof fn lemma_expert_gate(m: Cells, b: Seq<Buffer>, n: Seq<u32>, grid: (int, int, int), threads: int)
    ensures
        #[trigger] launched(m, Work::ExpertGate, b, n, grid, threads) == does_expert_gate(m, b, n, grid, threads),
{
    reveal(launched);
}

pub broadcast proof fn lemma_expert_back(m: Cells, b: Seq<Buffer>, n: Seq<u32>, grid: (int, int, int), threads: int)
    ensures
        #[trigger] launched(m, Work::ExpertBack, b, n, grid, threads) == does_expert_back(m, b, n, grid, threads),
{
    reveal(launched);
}

pub broadcast proof fn lemma_expert_back_each(m: Cells, b: Seq<Buffer>, n: Seq<u32>, grid: (int, int, int), threads: int)
    ensures
        #[trigger] launched(m, Work::ExpertBackEach, b, n, grid, threads) == does_expert_back_each(m, b, n, grid, threads),
{
    reveal(launched);
}

pub broadcast proof fn lemma_expert_fold(m: Cells, b: Seq<Buffer>, n: Seq<u32>, grid: (int, int, int), threads: int)
    ensures
        #[trigger] launched(m, Work::ExpertFold, b, n, grid, threads) == does_expert_fold(m, b, n, grid, threads),
{
    reveal(launched);
}

/// Works of the routed family.
pub broadcast group group_experts {
    lemma_expert_route,
    lemma_expert_pairs,
    lemma_expert_pairs_each,
    lemma_expert_gate,
    lemma_expert_back,
    lemma_expert_back_each,
    lemma_expert_fold,
}

pub broadcast proof fn lemma_tap(m: Cells, b: Seq<Buffer>, n: Seq<u32>, grid: (int, int, int), threads: int)
    ensures
        #[trigger] launched(m, Work::Tap, b, n, grid, threads) == does_tap(m, b, n, grid, threads),
{
    reveal(launched);
}

pub broadcast proof fn lemma_beside(m: Cells, b: Seq<Buffer>, n: Seq<u32>, grid: (int, int, int), threads: int)
    ensures
        #[trigger] launched(m, Work::Beside, b, n, grid, threads) == does_beside(m, b, n, grid, threads),
{
    reveal(launched);
}

pub broadcast proof fn lemma_previous(m: Cells, b: Seq<Buffer>, n: Seq<u32>, grid: (int, int, int), threads: int)
    ensures
        #[trigger] launched(m, Work::Previous, b, n, grid, threads) == does_previous(m, b, n, grid, threads),
{
    reveal(launched);
}

pub broadcast proof fn lemma_publish(m: Cells, b: Seq<Buffer>, n: Seq<u32>, grid: (int, int, int), threads: int)
    ensures
        #[trigger] launched(m, Work::Publish, b, n, grid, threads) == does_publish(m, b, n, grid, threads),
{
    reveal(launched);
}

pub broadcast proof fn lemma_advance(m: Cells, b: Seq<Buffer>, n: Seq<u32>, grid: (int, int, int), threads: int)
    ensures
        #[trigger] launched(m, Work::Advance, b, n, grid, threads) == does_advance(m, b, n, grid, threads),
{
    reveal(launched);
}

pub broadcast proof fn lemma_inject(m: Cells, b: Seq<Buffer>, n: Seq<u32>, grid: (int, int, int), threads: int)
    ensures
        #[trigger] launched(m, Work::Inject, b, n, grid, threads) == does_inject(m, b, n, grid, threads),
{
    reveal(launched);
}

pub broadcast proof fn lemma_draft_norm(m: Cells, b: Seq<Buffer>, n: Seq<u32>, grid: (int, int, int), threads: int)
    ensures
        #[trigger] launched(m, Work::DraftNorm, b, n, grid, threads) == does_draft_norm(m, b, n, grid, threads),
{
    reveal(launched);
}

pub broadcast proof fn lemma_draft_store(m: Cells, b: Seq<Buffer>, n: Seq<u32>, grid: (int, int, int), threads: int)
    ensures
        #[trigger] launched(m, Work::DraftStore, b, n, grid, threads) == does_draft_store(m, b, n, grid, threads),
{
    reveal(launched);
}

pub broadcast proof fn lemma_draft_turn(m: Cells, b: Seq<Buffer>, n: Seq<u32>, grid: (int, int, int), threads: int)
    ensures
        #[trigger] launched(m, Work::DraftTurn, b, n, grid, threads) == does_draft_turn(m, b, n, grid, threads),
{
    reveal(launched);
}

pub broadcast proof fn lemma_draft_attend(m: Cells, b: Seq<Buffer>, n: Seq<u32>, grid: (int, int, int), threads: int)
    ensures
        #[trigger] launched(m, Work::DraftAttend, b, n, grid, threads) == does_draft_attend(m, b, n, grid, threads),
{
    reveal(launched);
}

pub broadcast proof fn lemma_draft_parts(m: Cells, b: Seq<Buffer>, n: Seq<u32>, grid: (int, int, int), threads: int)
    ensures
        #[trigger] launched(m, Work::DraftParts, b, n, grid, threads) == does_draft_parts(m, b, n, grid, threads),
{
    reveal(launched);
}

pub broadcast proof fn lemma_draft_join(m: Cells, b: Seq<Buffer>, n: Seq<u32>, grid: (int, int, int), threads: int)
    ensures
        #[trigger] launched(m, Work::DraftJoin, b, n, grid, threads) == does_draft_join(m, b, n, grid, threads),
{
    reveal(launched);
}

pub broadcast proof fn lemma_draft_conv(m: Cells, b: Seq<Buffer>, n: Seq<u32>, grid: (int, int, int), threads: int)
    ensures
        #[trigger] launched(m, Work::DraftConv, b, n, grid, threads) == does_draft_conv(m, b, n, grid, threads),
{
    reveal(launched);
}

pub broadcast proof fn lemma_top_parts(m: Cells, b: Seq<Buffer>, n: Seq<u32>, grid: (int, int, int), threads: int)
    ensures
        #[trigger] launched(m, Work::TopParts, b, n, grid, threads) == does_top_parts(m, b, n, grid, threads),
{
    reveal(launched);
}

pub broadcast proof fn lemma_top_merge(m: Cells, b: Seq<Buffer>, n: Seq<u32>, grid: (int, int, int), threads: int)
    ensures
        #[trigger] launched(m, Work::TopMerge, b, n, grid, threads) == does_top_merge(m, b, n, grid, threads),
{
    reveal(launched);
}

pub broadcast proof fn lemma_select(m: Cells, b: Seq<Buffer>, n: Seq<u32>, grid: (int, int, int), threads: int)
    ensures
        #[trigger] launched(m, Work::Select, b, n, grid, threads) == does_select(m, b, n, grid, threads),
{
    reveal(launched);
}

/// Works of the companions.
pub broadcast group group_drafting {
    lemma_tap,
    lemma_beside,
    lemma_previous,
    lemma_publish,
    lemma_advance,
    lemma_inject,
    lemma_draft_norm,
    lemma_draft_store,
    lemma_draft_turn,
    lemma_draft_attend,
    lemma_draft_parts,
    lemma_draft_join,
    lemma_draft_conv,
    lemma_top_parts,
    lemma_top_merge,
    lemma_select,
}

pub broadcast proof fn lemma_taps(m: Cells, b: Seq<Buffer>, n: Seq<u32>, grid: (int, int, int), threads: int)
    ensures
        #[trigger] launched(m, Work::Taps, b, n, grid, threads) == does_taps(m, b, n, grid, threads),
{
    reveal(launched);
}

pub broadcast proof fn lemma_narrow(m: Cells, b: Seq<Buffer>, n: Seq<u32>, grid: (int, int, int), threads: int)
    ensures
        #[trigger] launched(m, Work::Narrow, b, n, grid, threads) == does_narrow(m, b, n, grid, threads),
{
    reveal(launched);
}

pub broadcast proof fn lemma_cut(m: Cells, b: Seq<Buffer>, n: Seq<u32>, grid: (int, int, int), threads: int)
    ensures
        #[trigger] launched(m, Work::Cut, b, n, grid, threads) == does_cut(m, b, n, grid, threads),
{
    reveal(launched);
}

pub broadcast proof fn lemma_position(m: Cells, b: Seq<Buffer>, n: Seq<u32>, grid: (int, int, int), threads: int)
    ensures
        #[trigger] launched(m, Work::Position, b, n, grid, threads) == does_position(m, b, n, grid, threads),
{
    reveal(launched);
}

pub broadcast proof fn lemma_biased(m: Cells, b: Seq<Buffer>, n: Seq<u32>, grid: (int, int, int), threads: int)
    ensures
        #[trigger] launched(m, Work::Biased, b, n, grid, threads) == does_biased(m, b, n, grid, threads),
{
    reveal(launched);
}

pub broadcast proof fn lemma_centre(m: Cells, b: Seq<Buffer>, n: Seq<u32>, grid: (int, int, int), threads: int)
    ensures
        #[trigger] launched(m, Work::Centre, b, n, grid, threads) == does_centre(m, b, n, grid, threads),
{
    reveal(launched);
}

pub broadcast proof fn lemma_tower_heads(m: Cells, b: Seq<Buffer>, n: Seq<u32>, grid: (int, int, int), threads: int)
    ensures
        #[trigger] launched(m, Work::TowerHeads, b, n, grid, threads) == does_tower_heads(m, b, n, grid, threads),
{
    reveal(launched);
}

pub broadcast proof fn lemma_tower_attend(m: Cells, b: Seq<Buffer>, n: Seq<u32>, grid: (int, int, int), threads: int)
    ensures
        #[trigger] launched(m, Work::TowerAttend, b, n, grid, threads) == does_tower_attend(m, b, n, grid, threads),
{
    reveal(launched);
}

pub broadcast proof fn lemma_activate(m: Cells, b: Seq<Buffer>, n: Seq<u32>, grid: (int, int, int), threads: int)
    ensures
        #[trigger] launched(m, Work::Activate, b, n, grid, threads) == does_activate(m, b, n, grid, threads),
{
    reveal(launched);
}

pub broadcast proof fn lemma_extract(m: Cells, b: Seq<Buffer>, n: Seq<u32>, grid: (int, int, int), threads: int)
    ensures
        #[trigger] launched(m, Work::Extract, b, n, grid, threads) == does_extract(m, b, n, grid, threads),
{
    reveal(launched);
}

/// Works of the vision tower.
pub broadcast group group_tower {
    lemma_taps,
    lemma_narrow,
    lemma_cut,
    lemma_position,
    lemma_biased,
    lemma_centre,
    lemma_tower_heads,
    lemma_tower_attend,
    lemma_activate,
    lemma_extract,
}

pub broadcast proof fn lemma_rotate(m: Cells, b: Seq<Buffer>, n: Seq<u32>, grid: (int, int, int), threads: int)
    ensures
        #[trigger] launched(m, Work::Rotate, b, n, grid, threads) == does_rotate(m, b, n, grid, threads),
{
    reveal(launched);
}

pub broadcast proof fn lemma_embed_rotated(m: Cells, b: Seq<Buffer>, n: Seq<u32>, grid: (int, int, int), threads: int)
    ensures
        #[trigger] launched(m, Work::EmbedRotated, b, n, grid, threads) == does_embed_rotated(m, b, n, grid, threads),
{
    reveal(launched);
}

/// Works of the native ternary lane.
pub broadcast group group_ternary {
    lemma_rotate,
    lemma_embed_rotated,
}

/// Products of one input with the first `n` planes, each where it goes.
pub open spec fn products(m: Cells, planes: Seq<Plane>, of: Value, rows: int, n: int) -> Cells
    decreases n,
{
    if n <= 0 {
        m
    } else {
        put(
            products(m, planes, of, rows, n - 1),
            planes[n - 1].out,
            product(planes[n - 1].weight, rows, of),
        )
    }
}

/// A projection: its workspace holds nothing afterwards. Some routes go on
/// with the products: the packed pair is activated into the place of its first
/// plane, the compact feed-forward leaves only its third, and an embedding
/// picks rows in place of multiplying them.
pub open spec fn projected(
    m: Cells,
    route: Route,
    planes: Seq<Plane>,
    input: Buffer,
    rows: int,
    workspace: Buffer,
) -> Cells {
    let of = m[input.id];
    let c = put(m, workspace, Value::Lost);
    let pair = gated(
        (rows * planes[0].weight.n) as u32,
        product(planes[0].weight, rows, of),
        product(planes[1].weight, rows, of),
    );
    match route {
        Route::PackedGateUp => put(put(c, planes[1].out, Value::Lost), planes[0].out, pair),
        Route::CompactFfn => put(
            put(put(c, planes[0].out, Value::Lost), planes[1].out, Value::Lost),
            planes[2].out,
            product(planes[2].weight, rows, pair),
        ),
        Route::TernaryEmbed => put(
            c,
            planes[0].out,
            Value::Embedded {
                table: planes[0].weight.buffer.id,
                width: planes[0].weight.k as u32,
                rows: rows as u32,
                form: planes[0].weight.ty,
                scale: ONE,
                ids: Box::new(of),
            },
        ),
        _ => products(c, planes, of, rows, planes.len() as int),
    }
}

/// What one step makes of the memory.
pub open spec fn effect(m: Cells, s: Step) -> Cells {
    match s {
        Step::Kernel { kernel, buffers, offsets, params, grid, threads } => launched(
            m,
            work(kernel),
            buffers,
            params,
            grid,
            threads,
        ),
        Step::Planes { route, planes, input, rows, workspace, spans } => projected(
            m,
            route,
            planes,
            input,
            rows,
            workspace,
        ),
    }
}

/// What a program makes of the memory.
pub open spec fn run(m: Cells, p: Seq<Step>) -> Cells
    decreases p.len(),
{
    if p.len() == 0 {
        m
    } else {
        effect(run(m, p.drop_last()), p.last())
    }
}

/// What the host writes before a program runs.
pub open spec fn host(m: Cells, writes: Seq<(Buffer, Seq<u32>)>) -> Cells
    decreases writes.len(),
{
    if writes.len() == 0 {
        m
    } else {
        put(host(m, writes.drop_last()), writes.last().0, Value::Words { words: writes.last().1 })
    }
}

pub broadcast proof fn lemma_host_push(m: Cells, w: Seq<(Buffer, Seq<u32>)>, one: (Buffer, Seq<u32>))
    ensures
        #[trigger] host(m, w.push(one)) == put(host(m, w), one.0, Value::Words { words: one.1 }),
{
    assert(w.push(one).drop_last() =~= w);
}

/// Steps run in order.
pub broadcast proof fn lemma_run_push(m: Cells, p: Seq<Step>, s: Step)
    ensures
        #[trigger] run(m, p.push(s)) == effect(run(m, p), s),
{
    assert(p.push(s).drop_last() =~= p);
}

/// Programs and writes go one by one.
pub broadcast group group_runs {
    lemma_run_push,
    lemma_host_push,
}

} // verus!
