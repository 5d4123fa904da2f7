//! The mathematical model of the board: the grid view, the toroidal neighbor
//! relation, the cached-count and trail invariants, and the lemmas about how
//! one liveness flip moves the true tallies.

use vstd::prelude::*;

verus! {

/// A cell's trail intensity the moment it becomes alive.
pub const TRAIL_LIFETIME_MAX: u8 = 100;

/// How much a dead cell's trail intensity fades per generation.
pub const TRAIL_LIFETIME_DECREASE: u8 = 5;

/// The atomic state unit of the grid: liveness, the cached count of live
/// neighbors, and the decaying trail intensity read by a renderer.
#[derive(Clone, Copy)]
pub struct Cell {
    pub alive: bool,
    pub neighbors: i8,
    pub trail_lifetime: u8,
}

/// The mathematical view of a board: a row-major grid of cells.
#[verifier::opaque]
pub open spec fn grid_of(b: Seq<Vec<Cell>>) -> Seq<Seq<Cell>> {
    b.map_values(|row: Vec<Cell>| row@)
}

/// The mathematical grid has one entry per board row.
pub broadcast proof fn lemma_grid_of_len(b: Seq<Vec<Cell>>)
    ensures
        #[trigger] grid_of(b).len() == b.len(),
{
    reveal(grid_of);
}

/// Each row of the mathematical grid is the view of the matching board row.
pub broadcast proof fn lemma_grid_of_index(b: Seq<Vec<Cell>>, j: int)
    requires
        0 <= j < b.len(),
    ensures
        #[trigger] grid_of(b)[j] == b[j]@,
{
    reveal(grid_of);
}

/// Number of columns of a grid (the length of its first row).
pub open spec fn cols_of(g: Seq<Seq<Cell>>) -> int {
    g[0].len() as int
}

/// A well-shaped grid: at least one row, at least one column, and every row
/// of the same length.
pub open spec fn wf_grid(g: Seq<Seq<Cell>>) -> bool {
    &&& g.len() > 0
    &&& g[0].len() > 0
    &&& forall|j: int| 0 <= j < g.len() ==> #[trigger] g[j].len() == g[0].len()
}

/// The toroidal predecessor of index `i` among `n` indices.
pub open spec fn wrap_dec(i: int, n: int) -> int {
    if i == 0 {
        n - 1
    } else {
        i - 1
    }
}

/// The toroidal successor of index `i` among `n` indices.
pub open spec fn wrap_inc(i: int, n: int) -> int {
    if i + 1 >= n {
        0
    } else {
        i + 1
    }
}

/// 1 if the cell at column `x`, row `y` is alive, else 0.
pub open spec fn alive_at(g: Seq<Seq<Cell>>, x: int, y: int) -> int {
    if g[y][x].alive {
        1
    } else {
        0
    }
}

/// The true live-neighbor tally of the cell at column `x`, row `y`: the sum,
/// over the eight toroidal neighbor slots (row and column each shifted by
/// minus one, zero, or plus one, wrapping at the edges, the cell's own slot
/// excluded), of the liveness of the cell each slot lands on. On grids with
/// fewer than three rows or columns several slots can land on the same cell
/// (or on the cell itself); such cells are counted once per slot.
pub open spec fn live_neighbors(g: Seq<Seq<Cell>>, x: int, y: int) -> int {
    let t = wrap_dec(y, g.len() as int);
    let b = wrap_inc(y, g.len() as int);
    let l = wrap_dec(x, cols_of(g));
    let r = wrap_inc(x, cols_of(g));
    alive_at(g, x, t) + alive_at(g, l, t) + alive_at(g, r, t) + alive_at(g, l, y) + alive_at(
        g,
        r,
        y,
    ) + alive_at(g, x, b) + alive_at(g, l, b) + alive_at(g, r, b)
}

/// The core invariant: every cell's cached count equals its true tally.
pub open spec fn counts_ok(g: Seq<Seq<Cell>>) -> bool {
    forall|x: int, y: int|
        0 <= x < cols_of(g) && 0 <= y < g.len() ==> (#[trigger] g[y][x]).neighbors as int
            == live_neighbors(g, x, y)
}

/// Trail invariant: a live cell's trail intensity is pinned at the maximum,
/// and no trail intensity ever exceeds it.
pub open spec fn trails_ok(g: Seq<Seq<Cell>>) -> bool {
    forall|x: int, y: int|
        0 <= x < cols_of(g) && 0 <= y < g.len() ==> ((#[trigger] g[y][x]).alive
            ==> g[y][x].trail_lifetime == TRAIL_LIFETIME_MAX) && g[y][x].trail_lifetime
            <= TRAIL_LIFETIME_MAX
}

/// Everything observable outside a single mutation: shape, neighbor cache,
/// and trail invariants together.
pub open spec fn wf_board(g: Seq<Seq<Cell>>) -> bool {
    wf_grid(g) && counts_ok(g) && trails_ok(g)
}

/// 1 if `c` holds, else 0.
pub open spec fn ind(c: bool) -> int {
    if c {
        1
    } else {
        0
    }
}

/// How many of the eight toroidal neighbor slots of the cell at column `x`,
/// row `y` land on the cell at column `i`, row `j`. On grids at least three
/// wide and three tall this is 1 for the eight distinct neighbors and 0
/// elsewhere; on narrower grids slots coincide and the value can be larger.
pub open spec fn neighbor_multiplicity(rows: int, cols: int, x: int, y: int, i: int, j: int) -> int {
    let t = wrap_dec(y, rows);
    let b = wrap_inc(y, rows);
    let l = wrap_dec(x, cols);
    let r = wrap_inc(x, cols);
    ind(i == x && j == t) + ind(i == l && j == t) + ind(i == r && j == t) + ind(i == l && j == y)
        + ind(i == r && j == y) + ind(i == x && j == b) + ind(i == l && j == b) + ind(
        i == r && j == b,
    )
}

/// The neighbor-slot relation is symmetric, with multiplicity: the cell at
/// `(i, j)` appears among the slots of `(x, y)` exactly as often as `(x, y)`
/// appears among the slots of `(i, j)`.
pub proof fn lemma_multiplicity_symmetric(rows: int, cols: int, x: int, y: int, i: int, j: int)
    requires
        0 <= x < cols,
        0 <= y < rows,
        0 <= i < cols,
        0 <= j < rows,
    ensures
        neighbor_multiplicity(rows, cols, x, y, i, j) == neighbor_multiplicity(
            rows,
            cols,
            i,
            j,
            x,
            y,
        ),
{
    assert(i == wrap_dec(x, cols) <==> x == wrap_inc(i, cols));
    assert(i == wrap_inc(x, cols) <==> x == wrap_dec(i, cols));
    assert(j == wrap_dec(y, rows) <==> y == wrap_inc(j, rows));
    assert(j == wrap_inc(y, rows) <==> y == wrap_dec(j, rows));
}

/// Bounds that the delta scheme relies on: a tally is always between 0 and 8,
/// and flipping the cell at `(x, y)` can neither push a tally above 8 (when
/// the cell is dead and about to turn alive) nor below 0 (when it is alive
/// and about to die).
pub proof fn lemma_count_bounds(g: Seq<Seq<Cell>>, x: int, y: int, i: int, j: int)
    requires
        wf_grid(g),
        0 <= x < cols_of(g),
        0 <= y < g.len(),
        0 <= i < cols_of(g),
        0 <= j < g.len(),
    ensures
        0 <= live_neighbors(g, i, j) <= 8,
        0 <= neighbor_multiplicity(g.len() as int, cols_of(g), x, y, i, j) <= 8,
        !g[y][x].alive ==> live_neighbors(g, i, j) + neighbor_multiplicity(
            g.len() as int,
            cols_of(g),
            x,
            y,
            i,
            j,
        ) <= 8,
        g[y][x].alive ==> neighbor_multiplicity(g.len() as int, cols_of(g), x, y, i, j)
            <= live_neighbors(g, i, j),
{
    lemma_multiplicity_symmetric(g.len() as int, cols_of(g), x, y, i, j);
}

/// The effect of flipping one cell's liveness on the true tallies: every
/// tally moves by exactly the multiplicity with which the flipped cell sits
/// among that cell's neighbor slots, upward when the cell turned alive and
/// downward when it died.
pub proof fn lemma_flip_changes_counts(g0: Seq<Seq<Cell>>, g1: Seq<Seq<Cell>>, x: int, y: int)
    requires
        wf_grid(g0),
        wf_grid(g1),
        g1.len() == g0.len(),
        cols_of(g1) == cols_of(g0),
        0 <= x < cols_of(g0),
        0 <= y < g0.len(),
        forall|i: int, j: int|
            0 <= i < cols_of(g0) && 0 <= j < g0.len() && !(i == x && j == y) ==> (
            #[trigger] g1[j][i]).alive == g0[j][i].alive,
        g1[y][x].alive == !g0[y][x].alive,
    ensures
        forall|i: int, j: int|
            0 <= i < cols_of(g0) && 0 <= j < g0.len() ==> #[trigger] live_neighbors(g1, i, j)
                == live_neighbors(g0, i, j) + (if g1[y][x].alive {
                neighbor_multiplicity(g0.len() as int, cols_of(g0), x, y, i, j)
            } else {
                -neighbor_multiplicity(g0.len() as int, cols_of(g0), x, y, i, j)
            }),
{
    assert forall|i: int, j: int|
        0 <= i < cols_of(g0) && 0 <= j < g0.len() implies #[trigger] live_neighbors(g1, i, j)
        == live_neighbors(g0, i, j) + (if g1[y][x].alive {
        neighbor_multiplicity(g0.len() as int, cols_of(g0), x, y, i, j)
    } else {
        -neighbor_multiplicity(g0.len() as int, cols_of(g0), x, y, i, j)
    }) by {
        lemma_multiplicity_symmetric(g0.len() as int, cols_of(g0), x, y, i, j);
    }
}

/// The classical life rule read against a frozen pre-step grid: a cell is
/// alive in the next generation exactly when its tally is 3, or its tally is
/// 2 and it is alive now.
pub open spec fn rule_alive(g: Seq<Seq<Cell>>, x: int, y: int) -> bool {
    live_neighbors(g, x, y) == 3 || (live_neighbors(g, x, y) == 2 && g[y][x].alive)
}

/// One tick of trail fading: down by the decrease step, floored at 0.
pub open spec fn decayed_trail(t: int) -> int {
    if t >= TRAIL_LIFETIME_DECREASE {
        t - TRAIL_LIFETIME_DECREASE
    } else {
        0
    }
}

/// The trail intensity a cell holds after one generation step: a cell that
/// stays alive keeps its intensity, a cell that turns alive snaps to the
/// maximum, and a dead cell fades by one tick.
pub open spec fn next_trail(g: Seq<Seq<Cell>>, x: int, y: int) -> int {
    if rule_alive(g, x, y) {
        if g[y][x].alive {
            g[y][x].trail_lifetime as int
        } else {
            TRAIL_LIFETIME_MAX as int
        }
    } else {
        decayed_trail(g[y][x].trail_lifetime as int)
    }
}

/// Precondition of the delta update for a just-flipped cell at `(x, y)`: all
/// cached counts lie in 0..=8 and have room for the delta they are about to
/// receive. Holds whenever the cache matched the tallies before the flip.
pub open spec fn bump_pre(g: Seq<Seq<Cell>>, x: int, y: int) -> bool {
    &&& wf_grid(g)
    &&& 0 <= x < cols_of(g)
    &&& 0 <= y < g.len()
    &&& forall|i: int, j: int|
        0 <= i < cols_of(g) && 0 <= j < g.len() ==> 0 <= (#[trigger] g[j][i]).neighbors <= 8
    &&& forall|i: int, j: int|
        0 <= i < cols_of(g) && 0 <= j < g.len() ==> (if g[y][x].alive {
            (#[trigger] g[j][i]).neighbors + neighbor_multiplicity(
                g.len() as int,
                cols_of(g),
                x,
                y,
                i,
                j,
            ) <= 8
        } else {
            (#[trigger] g[j][i]).neighbors - neighbor_multiplicity(
                g.len() as int,
                cols_of(g),
                x,
                y,
                i,
                j,
            ) >= 0
        })
}

/// Effect of the delta update for the cell at `(x, y)`: shape, liveness and
/// trails are untouched, and every cached count moves by exactly the
/// multiplicity of its slot overlap with `(x, y)` -- up if that cell is now
/// alive, down if it is now dead.
pub open spec fn bump_effect(g0: Seq<Seq<Cell>>, g1: Seq<Seq<Cell>>, x: int, y: int) -> bool {
    &&& g1.len() == g0.len()
    &&& wf_grid(g1)
    &&& cols_of(g1) == cols_of(g0)
    &&& forall|i: int, j: int|
        0 <= i < cols_of(g0) && 0 <= j < g0.len() ==> (#[trigger] g1[j][i]).alive
            == g0[j][i].alive && g1[j][i].trail_lifetime == g0[j][i].trail_lifetime
    &&& forall|i: int, j: int|
        0 <= i < cols_of(g0) && 0 <= j < g0.len() ==> (#[trigger] g1[j][i]).neighbors as int
            == g0[j][i].neighbors + (if g0[y][x].alive {
            neighbor_multiplicity(g0.len() as int, cols_of(g0), x, y, i, j)
        } else {
            -neighbor_multiplicity(g0.len() as int, cols_of(g0), x, y, i, j)
        })
}

/// Effect of the sanctioned liveness mutation at `(x, y)`: the shape is kept,
/// that cell's liveness becomes `alive`, its trail snaps to the maximum
/// exactly when it turns from dead to alive, every other cell's liveness and
/// trail are untouched, and the cache invariant still holds.
pub open spec fn set_cell_effect(
    g0: Seq<Seq<Cell>>,
    g1: Seq<Seq<Cell>>,
    x: int,
    y: int,
    alive: bool,
) -> bool {
    &&& g1.len() == g0.len()
    &&& cols_of(g1) == cols_of(g0)
    &&& wf_board(g1)
    &&& forall|i: int, j: int|
        0 <= i < cols_of(g0) && 0 <= j < g0.len() ==> (#[trigger] g1[j][i]).alive == (if i == x
            && j == y {
            alive
        } else {
            g0[j][i].alive
        })
    &&& forall|i: int, j: int|
        0 <= i < cols_of(g0) && 0 <= j < g0.len() ==> (#[trigger] g1[j][i]).trail_lifetime == (
        if i == x && j == y && alive && !g0[j][i].alive {
            TRAIL_LIFETIME_MAX
        } else {
            g0[j][i].trail_lifetime
        })
}

/// The first four neighbor-slot overlaps of `(x, y)` with `(i, j)`: the three
/// slots in the row above and the slot to the left.
pub open spec fn neighbor_multiplicity_a(
    rows: int,
    cols: int,
    x: int,
    y: int,
    i: int,
    j: int,
) -> int {
    let t = wrap_dec(y, rows);
    let l = wrap_dec(x, cols);
    let r = wrap_inc(x, cols);
    ind(i == x && j == t) + ind(i == l && j == t) + ind(i == r && j == t) + ind(i == l && j == y)
}

/// The remaining four neighbor-slot overlaps of `(x, y)` with `(i, j)`: the
/// slot to the right and the three slots in the row below.
pub open spec fn neighbor_multiplicity_b(
    rows: int,
    cols: int,
    x: int,
    y: int,
    i: int,
    j: int,
) -> int {
    let b = wrap_inc(y, rows);
    let l = wrap_dec(x, cols);
    let r = wrap_inc(x, cols);
    ind(i == r && j == y) + ind(i == x && j == b) + ind(i == l && j == b) + ind(i == r && j == b)
}


/// The raw effect of flipping the liveness flag at `(x, y)` to `alive` (with
/// the trail snap when turning alive), before the cache is patched: shape,
/// every other cell, and all cached counts are untouched.
pub open spec fn flipped_grid(
    g0: Seq<Seq<Cell>>,
    gf: Seq<Seq<Cell>>,
    x: int,
    y: int,
    alive: bool,
) -> bool {
    &&& gf.len() == g0.len()
    &&& cols_of(gf) == cols_of(g0)
    &&& wf_grid(gf)
    &&& g0[y][x].alive == !alive
    &&& forall|i: int, j: int|
        0 <= i < cols_of(g0) && 0 <= j < g0.len() ==> (#[trigger] gf[j][i]) == (if i == x && j
            == y {
            Cell {
                alive,
                neighbors: g0[j][i].neighbors,
                trail_lifetime: if alive {
                    TRAIL_LIFETIME_MAX
                } else {
                    g0[j][i].trail_lifetime
                },
            }
        } else {
            g0[j][i]
        })
}

/// After a liveness flip on a board whose cache matched the tallies, the
/// stale cached counts still have room for the delta they are about to
/// receive.
pub proof fn lemma_flip_bump_pre(
    g0: Seq<Seq<Cell>>,
    gf: Seq<Seq<Cell>>,
    x: int,
    y: int,
    alive: bool,
)
    requires
        wf_board(g0),
        0 <= x < cols_of(g0),
        0 <= y < g0.len(),
        flipped_grid(g0, gf, x, y, alive),
    ensures
        bump_pre(gf, x, y),
{
    let rr = g0.len() as int;
    let cc = cols_of(g0);
    assert forall|i: int, j: int| 0 <= i < cc && 0 <= j < rr implies 0 <= (
    #[trigger] gf[j][i]).neighbors <= 8 by {
        lemma_count_bounds(g0, x, y, i, j);
    }
    assert forall|i: int, j: int| 0 <= i < cc && 0 <= j < rr implies (if gf[y][x].alive {
        (#[trigger] gf[j][i]).neighbors + neighbor_multiplicity(rr, cc, x, y, i, j) <= 8
    } else {
        (#[trigger] gf[j][i]).neighbors - neighbor_multiplicity(rr, cc, x, y, i, j) >= 0
    }) by {
        lemma_count_bounds(g0, x, y, i, j);
    }
}

/// Once the delta update has patched the cache after a liveness flip, the
/// whole board invariant holds again and the flip together with the patch is
/// exactly the sanctioned mutation's effect.
pub proof fn lemma_flip_then_bump(
    g0: Seq<Seq<Cell>>,
    gf: Seq<Seq<Cell>>,
    g1: Seq<Seq<Cell>>,
    x: int,
    y: int,
    alive: bool,
)
    requires
        wf_board(g0),
        0 <= x < cols_of(g0),
        0 <= y < g0.len(),
        flipped_grid(g0, gf, x, y, alive),
        bump_effect(gf, g1, x, y),
    ensures
        set_cell_effect(g0, g1, x, y, alive),
{
    let rr = g0.len() as int;
    let cc = cols_of(g0);
    lemma_flip_changes_counts(g0, g1, x, y);
    assert forall|i: int, j: int| 0 <= i < cc && 0 <= j < rr implies (
    #[trigger] g1[j][i]).neighbors as int == live_neighbors(g1, i, j) by {
        assert(g1[j][i].neighbors as int == gf[j][i].neighbors + (if gf[y][x].alive {
            neighbor_multiplicity(rr, cc, x, y, i, j)
        } else {
            -neighbor_multiplicity(rr, cc, x, y, i, j)
        }));
        assert(gf[j][i].neighbors == g0[j][i].neighbors);
        assert(g0[j][i].neighbors as int == live_neighbors(g0, i, j));
    }
    assert(counts_ok(g1));
    assert forall|i: int, j: int| 0 <= i < cc && 0 <= j < rr implies ((#[trigger] g1[j][i]).alive
        ==> g1[j][i].trail_lifetime == TRAIL_LIFETIME_MAX) && g1[j][i].trail_lifetime
        <= TRAIL_LIFETIME_MAX by {
        assert(g1[j][i].alive == gf[j][i].alive);
        assert(g1[j][i].trail_lifetime == gf[j][i].trail_lifetime);
    }
    assert(trails_ok(g1));
}


/// Tallies depend only on liveness: two equally shaped grids that agree on
/// every cell's liveness have the same tally everywhere.
pub proof fn lemma_same_alive_same_tallies(g0: Seq<Seq<Cell>>, g1: Seq<Seq<Cell>>)
    requires
        wf_grid(g0),
        wf_grid(g1),
        g1.len() == g0.len(),
        cols_of(g1) == cols_of(g0),
        forall|i: int, j: int|
            0 <= i < cols_of(g0) && 0 <= j < g0.len() ==> (#[trigger] g1[j][i]).alive
                == g0[j][i].alive,
    ensures
        forall|i: int, j: int|
            0 <= i < cols_of(g0) && 0 <= j < g0.len() ==> #[trigger] live_neighbors(g1, i, j)
                == live_neighbors(g0, i, j),
{
    assert forall|i: int, j: int|
        0 <= i < cols_of(g0) && 0 <= j < g0.len() implies #[trigger] live_neighbors(g1, i, j)
        == live_neighbors(g0, i, j) by {
        let rr = g0.len() as int;
        let cc = cols_of(g0);
        assert(alive_at(g1, i, wrap_dec(j, rr)) == alive_at(g0, i, wrap_dec(j, rr)));
        assert(alive_at(g1, wrap_dec(i, cc), wrap_dec(j, rr)) == alive_at(
            g0,
            wrap_dec(i, cc),
            wrap_dec(j, rr),
        ));
        assert(alive_at(g1, wrap_inc(i, cc), wrap_dec(j, rr)) == alive_at(
            g0,
            wrap_inc(i, cc),
            wrap_dec(j, rr),
        ));
        assert(alive_at(g1, wrap_dec(i, cc), j) == alive_at(g0, wrap_dec(i, cc), j));
        assert(alive_at(g1, wrap_inc(i, cc), j) == alive_at(g0, wrap_inc(i, cc), j));
        assert(alive_at(g1, i, wrap_inc(j, rr)) == alive_at(g0, i, wrap_inc(j, rr)));
        assert(alive_at(g1, wrap_dec(i, cc), wrap_inc(j, rr)) == alive_at(
            g0,
            wrap_dec(i, cc),
            wrap_inc(j, rr),
        ));
        assert(alive_at(g1, wrap_inc(i, cc), wrap_inc(j, rr)) == alive_at(
            g0,
            wrap_inc(i, cc),
            wrap_inc(j, rr),
        ));
    }
}

/// Effect of one generation step on the grid: the shape is kept, every cell's
/// next liveness follows the classical rule read against the frozen pre-step
/// grid, every cell's trail follows the snap-or-fade rule, and the board
/// invariant holds again afterwards.
pub open spec fn step_effect(g0: Seq<Seq<Cell>>, g1: Seq<Seq<Cell>>) -> bool {
    &&& g1.len() == g0.len()
    &&& cols_of(g1) == cols_of(g0)
    &&& wf_board(g1)
    &&& forall|x: int, y: int|
        0 <= x < cols_of(g0) && 0 <= y < g0.len() ==> (#[trigger] g1[y][x]).alive == rule_alive(
            g0,
            x,
            y,
        )
    &&& forall|x: int, y: int|
        0 <= x < cols_of(g0) && 0 <= y < g0.len() ==> (#[trigger] g1[y][x]).trail_lifetime as int
            == next_trail(g0, x, y)
}


/// On a grid with no live cell every tally is zero.
pub proof fn lemma_all_dead_tallies(g: Seq<Seq<Cell>>)
    requires
        wf_grid(g),
        forall|x: int, y: int|
            0 <= x < cols_of(g) && 0 <= y < g.len() ==> !(#[trigger] g[y][x]).alive,
    ensures
        forall|x: int, y: int|
            0 <= x < cols_of(g) && 0 <= y < g.len() ==> #[trigger] live_neighbors(g, x, y) == 0,
{
    let rr = g.len() as int;
    let cc = cols_of(g);
    assert forall|x: int, y: int|
        0 <= x < cc && 0 <= y < rr implies #[trigger] live_neighbors(g, x, y) == 0 by {
        assert(alive_at(g, x, wrap_dec(y, rr)) == 0);
        assert(alive_at(g, wrap_dec(x, cc), wrap_dec(y, rr)) == 0);
        assert(alive_at(g, wrap_inc(x, cc), wrap_dec(y, rr)) == 0);
        assert(alive_at(g, wrap_dec(x, cc), y) == 0);
        assert(alive_at(g, wrap_inc(x, cc), y) == 0);
        assert(alive_at(g, x, wrap_inc(y, rr)) == 0);
        assert(alive_at(g, wrap_dec(x, cc), wrap_inc(y, rr)) == 0);
        assert(alive_at(g, wrap_inc(x, cc), wrap_inc(y, rr)) == 0);
    }
}

} // verus!
