//! The grid, the simulation step, and the driver's bookkeeping.
//!
//! The grid is a flat row-major byte buffer, one byte per cell, 0 for
//! dead and 1 for alive. The step function applies the classic two-state
//! neighborhood rule with toroidal wraparound: a cell's eight neighbor
//! positions wrap around the edges, and a position that wraps onto the
//! cell itself (possible only on degenerate one-wide grids) is not
//! counted.

use vstd::prelude::*;
use crate::registry::{sat_usize, TickCounters};

verus! {

/// Grid width the driver runs with.
pub const GRID_WIDTH: usize = 48;

/// Grid height the driver runs with.
pub const GRID_HEIGHT: usize = 31;

/// Ticks per second of the driver's loop.
pub const FPS: usize = 5;

/// Length of one tick in milliseconds.
pub const MS_PER_FRAME: usize = 1000 / FPS;

/// Running totals the driver keeps across ticks.
pub struct State {
    pub total_bytes_sent: usize,
    pub total_messages_sent: usize,
    pub encoded_grid_lengths: Vec<usize>,
    pub frames: usize,
}

/// Observability data shown beside the grid.
#[derive(Clone, Copy, Debug, PartialEq, Eq, Structural)]
pub struct DebugData {
    pub active_connections: u64,
}

impl State {
    /// A fresh state with every counter at zero.
    pub fn new() -> (s: State)
        ensures
            s.total_bytes_sent == 0,
            s.total_messages_sent == 0,
            s.encoded_grid_lengths@ == Seq::<usize>::empty(),
            s.frames == 0,
    {
        State {
            total_bytes_sent: 0,
            total_messages_sent: 0,
            encoded_grid_lengths: Vec::new(),
            frames: 0,
        }
    }

    /// Folds one tick's counters into the running totals: the encoded
    /// grid length is recorded, the byte and message totals grow by the
    /// tick's counts, and the frame count steps, each total clamped only
    /// at its machine limit.
    pub fn record_tick(&mut self, encoded_len: usize, c: &TickCounters)
        ensures
            final(self).total_bytes_sent == sat_usize((old(self).total_bytes_sent + c.bytes) as nat),
            final(self).total_messages_sent == sat_usize((old(self).total_messages_sent + c.messages) as nat),
            final(self).encoded_grid_lengths@ == old(self).encoded_grid_lengths@.push(encoded_len),
            final(self).frames == sat_usize((old(self).frames + 1) as nat),
    {
        self.encoded_grid_lengths.push(encoded_len);
        self.total_bytes_sent = self.total_bytes_sent.saturating_add(c.bytes);
        self.total_messages_sent = self.total_messages_sent.saturating_add(c.messages);
        self.frames = self.frames.saturating_add(1);
    }
}

/// A coordinate moved one step, wrapped onto the torus: below zero wraps
/// to the far edge, past the far edge wraps to zero.
pub open spec fn wrap(c: int, n: int) -> int {
    if c < 0 {
        n - 1
    } else if c >= n {
        0
    } else {
        c
    }
}

/// Whether every cell of a grid buffer is 0 or 1.
pub open spec fn boolean_grid(g: Seq<u8>) -> bool {
    forall|k: int| 0 <= k < g.len() ==> #[trigger] g[k] == 0 || g[k] == 1
}

/// What one neighbor offset contributes to a cell's neighbor count: the
/// cell at the wrapped position, except that a position wrapping onto
/// the counted cell itself contributes nothing.
pub open spec fn offset_contrib(
    g: Seq<u8>,
    w: int,
    h: int,
    x: int,
    y: int,
    dx: int,
    dy: int,
) -> int {
    let ax = wrap(x + dx, w);
    let ay = wrap(y + dy, h);
    if ax == x && ay == y {
        0
    } else {
        g[ax + w * ay] as int
    }
}

/// A cell's neighbor count: the contributions of the eight offsets
/// around it.
pub open spec fn neighbor_sum(g: Seq<u8>, w: int, h: int, x: int, y: int) -> int {
    offset_contrib(g, w, h, x, y, -1, -1) + offset_contrib(g, w, h, x, y, 0, -1)
        + offset_contrib(g, w, h, x, y, 1, -1) + offset_contrib(g, w, h, x, y, -1, 0)
        + offset_contrib(g, w, h, x, y, 1, 0) + offset_contrib(g, w, h, x, y, -1, 1)
        + offset_contrib(g, w, h, x, y, 0, 1) + offset_contrib(g, w, h, x, y, 1, 1)
}

/// The rule: a cell is alive next tick when its neighbor count is three,
/// or when it is alive now and its neighbor count is two.
pub open spec fn next_cell(g: Seq<u8>, w: int, h: int, x: int, y: int) -> u8 {
    let sum = neighbor_sum(g, w, h, x, y);
    if sum == 3 || (g[x + w * y] == 1 && sum == 2) {
        1u8
    } else {
        0u8
    }
}

/// A flat index inside a `w` by `h` grid stays inside the buffer.
proof fn lemma_grid_index(w: int, h: int, x: int, y: int)
    requires
        0 <= x < w,
        0 <= y < h,
    ensures
        0 <= x + w * y < w * h,
    decreases h,
{
    assert(0 <= x + w * y < w * h) by (nonlinear_arith)
        requires
            0 <= x < w,
            0 <= y < h,
    ;
}

/// One step toward the decremented coordinate on the torus.
fn wrap_dec(c: usize, n: usize) -> (r: usize)
    requires
        c < n,
    ensures
        r == wrap(c as int - 1, n as int),
        r < n,
{
    if c == 0 {
        n - 1
    } else {
        c - 1
    }
}

/// One step toward the incremented coordinate on the torus.
fn wrap_inc(c: usize, n: usize) -> (r: usize)
    requires
        c < n,
    ensures
        r == wrap(c as int + 1, n as int),
        r < n,
{
    if c + 1 >= n {
        0
    } else {
        c + 1
    }
}

/// Counts the live neighbors of the cell at `(x, y)` on the torus.
pub fn compute_neighbors(grid: &[u8], width: usize, height: usize, x: usize, y: usize) -> (sum: u8)
    requires
        width >= 1,
        height >= 1,
        grid@.len() == width * height,
        boolean_grid(grid@),
        x < width,
        y < height,
    ensures
        sum as int == neighbor_sum(grid@, width as int, height as int, x as int, y as int),
        sum <= 8,
{
    let glen = grid.len();
    let xm = wrap_dec(x, width);
    let xp = wrap_inc(x, width);
    let ym = wrap_dec(y, height);
    let yp = wrap_inc(y, height);
    let mut sum: u8 = 0;
    proof {
        assert(glen == width * height);
        lemma_grid_index(width as int, height as int, xm as int, ym as int);
        lemma_grid_index(width as int, height as int, x as int, ym as int);
        lemma_grid_index(width as int, height as int, xp as int, ym as int);
        lemma_grid_index(width as int, height as int, xm as int, y as int);
        lemma_grid_index(width as int, height as int, xp as int, y as int);
        lemma_grid_index(width as int, height as int, xm as int, yp as int);
        lemma_grid_index(width as int, height as int, x as int, yp as int);
        lemma_grid_index(width as int, height as int, xp as int, yp as int);
    }
    if !(xm == x && ym == y) {
        sum += grid[xm + width * ym];
    }
    if !(x == x && ym == y) {
        sum += grid[x + width * ym];
    }
    if !(xp == x && ym == y) {
        sum += grid[xp + width * ym];
    }
    if !(xm == x && y == y) {
        sum += grid[xm + width * y];
    }
    if !(xp == x && y == y) {
        sum += grid[xp + width * y];
    }
    if !(xm == x && yp == y) {
        sum += grid[xm + width * yp];
    }
    if !(x == x && yp == y) {
        sum += grid[x + width * yp];
    }
    if !(xp == x && yp == y) {
        sum += grid[xp + width * yp];
    }
    sum
}

/// One simulation step: the whole next grid, row-major, each cell set by
/// the rule applied to the current grid.
pub fn next_grid(grid: &[u8], width: usize, height: usize) -> (out: Vec<u8>)
    requires
        width >= 1,
        height >= 1,
        grid@.len() == width * height,
        boolean_grid(grid@),
    ensures
        out@.len() == grid@.len(),
        forall|x: int, y: int|
            0 <= x < width && 0 <= y < height ==> out@[x + width * y] == #[trigger] next_cell(
                grid@,
                width as int,
                height as int,
                x,
                y,
            ),
        boolean_grid(out@),
{
    let mut out: Vec<u8> = Vec::new();
    let len = grid.len();
    let mut j: usize = 0;
    while j < len
        invariant
            0 <= j <= len,
            len == grid@.len(),
            width >= 1,
            height >= 1,
            grid@.len() == width * height,
            boolean_grid(grid@),
            out@.len() == j,
            forall|k: int|
                0 <= k < j ==> #[trigger] out@[k] == next_cell(
                    grid@,
                    width as int,
                    height as int,
                    k % (width as int),
                    k / (width as int),
                ),
            boolean_grid(out@),
        decreases len - j,
    {
        let x = j % width;
        let y = j / width;
        proof {
            assert(j / width < height) by (nonlinear_arith)
                requires
                    j < width * height,
                    width >= 1,
            ;
            vstd::arithmetic::div_mod::lemma_fundamental_div_mod(j as int, width as int);
        }
        let sum = compute_neighbors(grid, width, height, x, y);
        let prev = grid[j];
        let cell: u8 = if sum == 3 || (prev == 1 && sum == 2) {
            1
        } else {
            0
        };
        out.push(cell);
        j += 1;
    }
    proof {
        assert forall|x: int, y: int|
            0 <= x < width && 0 <= y < height implies out@[x + width * y] == #[trigger] next_cell(
            grid@,
            width as int,
            height as int,
            x,
            y,
        ) by {
            lemma_grid_index(width as int, height as int, x, y);
            vstd::arithmetic::div_mod::lemma_fundamental_div_mod_converse(
                x + width * y,
                width as int,
                y,
                x,
            );
        }
    }
    out
}

} // verus!
