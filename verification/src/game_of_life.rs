//! The simulation engine: bounds-checked mutation that keeps the
//! neighbor-count cache consistent, the one-time cache bootstrap, and the
//! double-buffered generation step with trail decay.

use vstd::prelude::*;

use crate::grid::{
    bump_effect, bump_pre, cols_of, counts_ok, flipped_grid, grid_of, lemma_all_dead_tallies,
    lemma_flip_bump_pre, lemma_flip_then_bump, lemma_grid_of_index, lemma_grid_of_len,
    lemma_same_alive_same_tallies, live_neighbors, neighbor_multiplicity,
    neighbor_multiplicity_a, neighbor_multiplicity_b, next_trail, rule_alive, set_cell_effect,
    step_effect, trails_ok, wf_board, wf_grid, wrap_dec, wrap_inc,
};

pub use crate::grid::{Cell, TRAIL_LIFETIME_DECREASE, TRAIL_LIFETIME_MAX};

verus! {

broadcast use lemma_grid_of_index, lemma_grid_of_len;

/// Width of one cell when rendered, in terminal columns.
pub const PIXEL_WIDTH: u8 = 2;

/// Adds `change` to the cached count of the single cell at column `i`,
/// row `j`, leaving every other cell and every other field untouched.
fn bump(board: &mut Vec<Vec<Cell>>, i: usize, j: usize, change: i8)
    requires
        wf_grid(grid_of(old(board)@)),
        j < old(board)@.len(),
        i < cols_of(grid_of(old(board)@)),
        i8::MIN <= grid_of(old(board)@)[j as int][i as int].neighbors + change <= i8::MAX,
    ensures
        final(board)@.len() == old(board)@.len(),
        wf_grid(grid_of(final(board)@)),
        cols_of(grid_of(final(board)@)) == cols_of(grid_of(old(board)@)),
        forall|a: int, b: int|
            0 <= a < cols_of(grid_of(old(board)@)) && 0 <= b < old(board)@.len() ==> (
            #[trigger] grid_of(final(board)@)[b][a]) == (if a == i && b == j {
                Cell {
                    alive: grid_of(old(board)@)[b][a].alive,
                    neighbors: (grid_of(old(board)@)[b][a].neighbors + change) as i8,
                    trail_lifetime: grid_of(old(board)@)[b][a].trail_lifetime,
                }
            } else {
                grid_of(old(board)@)[b][a]
            }),
{
    proof {
        let g = grid_of(board@);
        assert(g[j as int] == board@[j as int]@);
        assert(g[j as int].len() == cols_of(g));
    }
    board[j][i].neighbors = board[j][i].neighbors + change;
    proof {
        let g0 = grid_of(old(board)@);
        let g1 = grid_of(board@);
        assert forall|a: int, b: int|
            0 <= a < cols_of(g0) && 0 <= b < old(board)@.len() implies (#[trigger] g1[b][a]) == (
        if a == i && b == j {
            Cell {
                alive: g0[b][a].alive,
                neighbors: (g0[b][a].neighbors + change) as i8,
                trail_lifetime: g0[b][a].trail_lifetime,
            }
        } else {
            g0[b][a]
        }) by {
            assert(g0[b] == old(board)@[b]@);
            assert(g1[b] == board@[b]@);
        }
        assert(g1.len() == g0.len());
        assert forall|b: int| 0 <= b < g1.len() implies #[trigger] g1[b].len() == g0[b].len() by {
            assert(g0[b] == old(board)@[b]@);
            assert(g1[b] == board@[b]@);
        }
    }
}

/// Applies the signed cache delta for the cell at column `x`, row `y` to its
/// first four toroidal neighbor slots: the row above and the left slot.
#[verifier::rlimit(100)]
fn apply_delta_a(board: &mut Vec<Vec<Cell>>, x: usize, y: usize, change: i8)
    requires
        wf_grid(grid_of(old(board)@)),
        y < old(board)@.len(),
        x < cols_of(grid_of(old(board)@)),
        change == 1 || change == -1,
        forall|i: int, j: int|
            0 <= i < cols_of(grid_of(old(board)@)) && 0 <= j < old(board)@.len() ==> -16 <= (
            #[trigger] grid_of(old(board)@)[j][i]).neighbors <= 16,
    ensures
        final(board)@.len() == old(board)@.len(),
        wf_grid(grid_of(final(board)@)),
        cols_of(grid_of(final(board)@)) == cols_of(grid_of(old(board)@)),
        forall|i: int, j: int|
            0 <= i < cols_of(grid_of(old(board)@)) && 0 <= j < old(board)@.len() ==> (
            #[trigger] grid_of(final(board)@)[j][i]).alive == grid_of(old(board)@)[j][i].alive
                && grid_of(final(board)@)[j][i].trail_lifetime == grid_of(
                old(board)@,
            )[j][i].trail_lifetime,
        forall|i: int, j: int|
            0 <= i < cols_of(grid_of(old(board)@)) && 0 <= j < old(board)@.len() ==> (
            #[trigger] grid_of(final(board)@)[j][i]).neighbors as int == grid_of(
                old(board)@,
            )[j][i].neighbors + (if change == 1 {
                neighbor_multiplicity_a(old(board)@.len() as int, cols_of(grid_of(old(board)@)), x as int, y as int, i, j)
            } else {
                -neighbor_multiplicity_a(old(board)@.len() as int, cols_of(grid_of(old(board)@)), x as int, y as int, i, j)
            }),
{
    let rows = board.len();
    let columns = board[0].len();
    let ghost g0 = grid_of(board@);
    let ghost rr = board@.len() as int;
    let ghost cc = cols_of(g0);
    let ghost gx = x as int;
    let ghost gy = y as int;
    let ghost st = wrap_dec(gy, rr);
    let ghost sl = wrap_dec(gx, cc);
    let ghost sr = wrap_inc(gx, cc);
    let ghost sb = wrap_inc(gy, rr);

    let t = if y == 0 {
        rows - 1
    } else {
        y - 1
    };
    let l = if x == 0 {
        columns - 1
    } else {
        x - 1
    };
    let r = if x + 1 >= columns {
        0
    } else {
        x + 1
    };
    let b = if y + 1 >= rows {
        0
    } else {
        y + 1
    };
    proof {
        assert(t as int == st && l as int == sl && r as int == sr && b as int == sb);
    }

    bump(board, x, t, change);
    let ghost g1 = grid_of(board@);
    bump(board, l, t, change);
    let ghost g2 = grid_of(board@);
    bump(board, r, t, change);
    let ghost g3 = grid_of(board@);
    bump(board, l, y, change);
    let ghost g4 = grid_of(board@);
    proof {
        assert forall|i: int, j: int| 0 <= i < cc && 0 <= j < rr implies (
        #[trigger] g4[j][i]).neighbors as int == g0[j][i].neighbors + (if change == 1 {
            neighbor_multiplicity_a(rr, cc, gx, gy, i, j)
        } else {
            -neighbor_multiplicity_a(rr, cc, gx, gy, i, j)
        }) by {
            // Naming the buffer's intermediate cells lets each bump's
            // postcondition instantiate at (i, j).
            let c1 = g1[j][i];
            let c2 = g2[j][i];
            let c3 = g3[j][i];
        }
    }
}

/// Applies the signed cache delta for the cell at column `x`, row `y` to its
/// remaining four toroidal neighbor slots: the right slot and the row below.
#[verifier::rlimit(100)]
fn apply_delta_b(board: &mut Vec<Vec<Cell>>, x: usize, y: usize, change: i8)
    requires
        wf_grid(grid_of(old(board)@)),
        y < old(board)@.len(),
        x < cols_of(grid_of(old(board)@)),
        change == 1 || change == -1,
        forall|i: int, j: int|
            0 <= i < cols_of(grid_of(old(board)@)) && 0 <= j < old(board)@.len() ==> -16 <= (
            #[trigger] grid_of(old(board)@)[j][i]).neighbors <= 16,
    ensures
        final(board)@.len() == old(board)@.len(),
        wf_grid(grid_of(final(board)@)),
        cols_of(grid_of(final(board)@)) == cols_of(grid_of(old(board)@)),
        forall|i: int, j: int|
            0 <= i < cols_of(grid_of(old(board)@)) && 0 <= j < old(board)@.len() ==> (
            #[trigger] grid_of(final(board)@)[j][i]).alive == grid_of(old(board)@)[j][i].alive
                && grid_of(final(board)@)[j][i].trail_lifetime == grid_of(
                old(board)@,
            )[j][i].trail_lifetime,
        forall|i: int, j: int|
            0 <= i < cols_of(grid_of(old(board)@)) && 0 <= j < old(board)@.len() ==> (
            #[trigger] grid_of(final(board)@)[j][i]).neighbors as int == grid_of(
                old(board)@,
            )[j][i].neighbors + (if change == 1 {
                neighbor_multiplicity_b(old(board)@.len() as int, cols_of(grid_of(old(board)@)), x as int, y as int, i, j)
            } else {
                -neighbor_multiplicity_b(old(board)@.len() as int, cols_of(grid_of(old(board)@)), x as int, y as int, i, j)
            }),
{
    let rows = board.len();
    let columns = board[0].len();
    let ghost g0 = grid_of(board@);
    let ghost rr = board@.len() as int;
    let ghost cc = cols_of(g0);
    let ghost gx = x as int;
    let ghost gy = y as int;
    let ghost st = wrap_dec(gy, rr);
    let ghost sl = wrap_dec(gx, cc);
    let ghost sr = wrap_inc(gx, cc);
    let ghost sb = wrap_inc(gy, rr);

    let t = if y == 0 {
        rows - 1
    } else {
        y - 1
    };
    let l = if x == 0 {
        columns - 1
    } else {
        x - 1
    };
    let r = if x + 1 >= columns {
        0
    } else {
        x + 1
    };
    let b = if y + 1 >= rows {
        0
    } else {
        y + 1
    };
    proof {
        assert(t as int == st && l as int == sl && r as int == sr && b as int == sb);
    }

    bump(board, r, y, change);
    let ghost g1 = grid_of(board@);
    bump(board, x, b, change);
    let ghost g2 = grid_of(board@);
    bump(board, l, b, change);
    let ghost g3 = grid_of(board@);
    bump(board, r, b, change);
    let ghost g4 = grid_of(board@);
    proof {
        assert forall|i: int, j: int| 0 <= i < cc && 0 <= j < rr implies (
        #[trigger] g4[j][i]).neighbors as int == g0[j][i].neighbors + (if change == 1 {
            neighbor_multiplicity_b(rr, cc, gx, gy, i, j)
        } else {
            -neighbor_multiplicity_b(rr, cc, gx, gy, i, j)
        }) by {
            // Naming the buffer's intermediate cells lets each bump's
            // postcondition instantiate at (i, j).
            let c1 = g1[j][i];
            let c2 = g2[j][i];
            let c3 = g3[j][i];
        }
    }
}

/// Applies the signed cache delta for the cell at column `x`, row `y` (whose
/// liveness has just been flipped to its current value) to all eight toroidal
/// neighbor slots: plus one per slot if the cell is now alive, minus one if
/// now dead. Slots that coincide on small grids receive the delta once per
/// slot. Liveness and trail intensities are untouched.
fn update_neighbors_count(board: &mut Vec<Vec<Cell>>, x: usize, y: usize)
    requires
        bump_pre(grid_of(old(board)@), x as int, y as int),
    ensures
        bump_effect(grid_of(old(board)@), grid_of(final(board)@), x as int, y as int),
{
    let ghost g0 = grid_of(board@);
    let ghost rr = board@.len() as int;
    let ghost cc = cols_of(g0);
    proof {
        let g = grid_of(board@);
        assert(g[y as int] == board@[y as int]@);
        assert(g[y as int].len() == cols_of(g));
    }
    let change: i8 = if board[y][x].alive {
        1
    } else {
        -1
    };
    apply_delta_a(board, x, y, change);
    let ghost gmid = grid_of(board@);
    apply_delta_b(board, x, y, change);
    proof {
        let g2 = grid_of(board@);
        assert forall|i: int, j: int| 0 <= i < cc && 0 <= j < rr implies (
        #[trigger] g2[j][i]).neighbors as int == g0[j][i].neighbors + (if g0[y as int][x as int].alive {
            neighbor_multiplicity(rr, cc, x as int, y as int, i, j)
        } else {
            -neighbor_multiplicity(rr, cc, x as int, y as int, i, j)
        }) by {
            assert(gmid[j][i].neighbors as int == g0[j][i].neighbors + (if change == 1 {
                neighbor_multiplicity_a(rr, cc, x as int, y as int, i, j)
            } else {
                -neighbor_multiplicity_a(rr, cc, x as int, y as int, i, j)
            }));
            assert(neighbor_multiplicity(rr, cc, x as int, y as int, i, j)
                == neighbor_multiplicity_a(rr, cc, x as int, y as int, i, j)
                    + neighbor_multiplicity_b(rr, cc, x as int, y as int, i, j));
        }
    }
}


/// The only sanctioned path that mutates liveness. A no-op (touching nothing,
/// cache included) when the cell already has liveness `alive`; otherwise flips
/// the flag, snaps the trail to its maximum when the cell turns alive, and
/// applies the signed delta to the cached counts of all eight toroidal
/// neighbors, keeping the cache invariant in O(1) work per call.
#[verifier::rlimit(100)]
pub fn set_cell(board: &mut Vec<Vec<Cell>>, x: usize, y: usize, alive: bool)
    requires
        wf_board(grid_of(old(board)@)),
        y < old(board)@.len(),
        x < cols_of(grid_of(old(board)@)),
    ensures
        set_cell_effect(grid_of(old(board)@), grid_of(final(board)@), x as int, y as int, alive),
        grid_of(old(board)@)[y as int][x as int].alive == alive ==> final(board)@ == old(board)@,
{
    let ghost g0 = grid_of(board@);
    let ghost rr = board@.len() as int;
    let ghost cc = cols_of(g0);
    let ghost gx = x as int;
    let ghost gy = y as int;
    proof {
        assert(g0[gy] == board@[gy]@);
        assert(g0[gy].len() == cc);
    }
    if alive == board[y][x].alive {
        return ;
    }
    board[y][x].alive = alive;
    if alive {
        board[y][x].trail_lifetime = TRAIL_LIFETIME_MAX;
    }
    let ghost gf = grid_of(board@);
    proof {
        assert forall|i: int, j: int| 0 <= i < cc && 0 <= j < rr implies (#[trigger] gf[j][i])
            == (if i == gx && j == gy {
            Cell {
                alive,
                neighbors: g0[j][i].neighbors,
                trail_lifetime: if alive {
                    TRAIL_LIFETIME_MAX
                } else {
                    g0[j][i].trail_lifetime
                },
            }
        } else {
            g0[j][i]
        }) by {
            assert(g0[j] == old(board)@[j]@);
            assert(gf[j] == board@[j]@);
        }
        assert(gf.len() == g0.len());
        assert forall|j: int| 0 <= j < rr implies #[trigger] gf[j].len() == g0[j].len() by {
            assert(g0[j] == old(board)@[j]@);
            assert(gf[j] == board@[j]@);
        }
        assert(flipped_grid(g0, gf, gx, gy, alive));
        lemma_flip_bump_pre(g0, gf, gx, gy, alive);
    }
    update_neighbors_count(board, x, y);
    proof {
        lemma_flip_then_bump(g0, gf, grid_of(board@), gx, gy, alive);
    }
}



/// Overwrites the cached count of the single cell at column `i`, row `j`,
/// leaving every other cell and every other field untouched.
fn put_count(board: &mut Vec<Vec<Cell>>, i: usize, j: usize, n: i8)
    requires
        wf_grid(grid_of(old(board)@)),
        j < old(board)@.len(),
        i < cols_of(grid_of(old(board)@)),
    ensures
        final(board)@.len() == old(board)@.len(),
        wf_grid(grid_of(final(board)@)),
        cols_of(grid_of(final(board)@)) == cols_of(grid_of(old(board)@)),
        forall|a: int, b: int|
            0 <= a < cols_of(grid_of(old(board)@)) && 0 <= b < old(board)@.len() ==> (
            #[trigger] grid_of(final(board)@)[b][a]) == (if a == i && b == j {
                Cell {
                    alive: grid_of(old(board)@)[b][a].alive,
                    neighbors: n,
                    trail_lifetime: grid_of(old(board)@)[b][a].trail_lifetime,
                }
            } else {
                grid_of(old(board)@)[b][a]
            }),
{
    proof {
        let g = grid_of(board@);
        assert(g[j as int] == board@[j as int]@);
        assert(g[j as int].len() == cols_of(g));
    }
    board[j][i].neighbors = n;
    proof {
        let g0 = grid_of(old(board)@);
        let g1 = grid_of(board@);
        assert forall|a: int, b: int|
            0 <= a < cols_of(g0) && 0 <= b < old(board)@.len() implies (#[trigger] g1[b][a]) == (
        if a == i && b == j {
            Cell {
                alive: g0[b][a].alive,
                neighbors: n,
                trail_lifetime: g0[b][a].trail_lifetime,
            }
        } else {
            g0[b][a]
        }) by {
            assert(g0[b] == old(board)@[b]@);
            assert(g1[b] == board@[b]@);
        }
        assert forall|b: int| 0 <= b < g1.len() implies #[trigger] g1[b].len() == g0[b].len() by {
            assert(g0[b] == old(board)@[b]@);
            assert(g1[b] == board@[b]@);
        }
    }
}

/// Tallies the live cells among the eight toroidal neighbor slots of the
/// cell at column `x`, row `y`, reading the board without changing it.
#[verifier::rlimit(100)]
fn count_live_neighbors(board: &Vec<Vec<Cell>>, x: usize, y: usize) -> (n: i8)
    requires
        wf_grid(grid_of(board@)),
        y < board@.len(),
        x < cols_of(grid_of(board@)),
    ensures
        n as int == live_neighbors(grid_of(board@), x as int, y as int),
        0 <= n <= 8,
{
    let rows = board.len();
    let columns = board[0].len();
    let ghost g = grid_of(board@);
    let ghost rr = board@.len() as int;
    let ghost cc = cols_of(g);
    proof {
        assert forall|j: int| 0 <= j < rr implies #[trigger] board@[j]@.len() == columns by {
            assert(g[j] == board@[j]@);
            assert(g[j].len() == cols_of(g));
        }
    }
    let t = if y == 0 {
        rows - 1
    } else {
        y - 1
    };
    let l = if x == 0 {
        columns - 1
    } else {
        x - 1
    };
    let r = if x + 1 >= columns {
        0
    } else {
        x + 1
    };
    let b = if y + 1 >= rows {
        0
    } else {
        y + 1
    };

    let mut neighbors: i8 = 0;
    if board[t][x].alive {
        neighbors = neighbors + 1;
    }
    if board[t][l].alive {
        neighbors = neighbors + 1;
    }
    if board[t][r].alive {
        neighbors = neighbors + 1;
    }
    if board[y][l].alive {
        neighbors = neighbors + 1;
    }
    if board[y][r].alive {
        neighbors = neighbors + 1;
    }
    if board[b][x].alive {
        neighbors = neighbors + 1;
    }
    if board[b][l].alive {
        neighbors = neighbors + 1;
    }
    if board[b][r].alive {
        neighbors = neighbors + 1;
    }
    proof {
        assert(t as int == wrap_dec(y as int, rr) && l as int == wrap_dec(x as int, cc) && r as int
            == wrap_inc(x as int, cc) && b as int == wrap_inc(y as int, rr));
        assert(g[t as int] == board@[t as int]@ && g[y as int] == board@[y as int]@ && g[b as int]
            == board@[b as int]@);
    }
    neighbors
}


/// Builds a fresh buffer that is an exact copy of the board: same shape, same
/// cells. This is the pre-step snapshot duplicate the generation step writes
/// into.
fn copy_board(src: &Vec<Vec<Cell>>) -> (r: Vec<Vec<Cell>>)
    ensures
        r@.len() == src@.len(),
        grid_of(r@) == grid_of(src@),
{
    let mut r: Vec<Vec<Cell>> = Vec::new();
    let mut j: usize = 0;
    while j < src.len()
        invariant
            j <= src@.len(),
            r@.len() == j,
            forall|b: int| 0 <= b < j ==> #[trigger] r@[b]@ == src@[b]@,
        decreases src@.len() - j,
    {
        let row = &src[j];
        let mut copy_row: Vec<Cell> = Vec::new();
        let mut i: usize = 0;
        while i < row.len()
            invariant
                i <= row@.len(),
                copy_row@.len() == i,
                forall|a: int| 0 <= a < i ==> #[trigger] copy_row@[a] == row@[a],
            decreases row@.len() - i,
        {
            copy_row.push(row[i]);
            i = i + 1;
        }
        proof {
            assert(copy_row@ =~= src@[j as int]@);
        }
        r.push(copy_row);
        j = j + 1;
    }
    proof {
        assert forall|b: int| 0 <= b < src@.len() implies #[trigger] grid_of(r@)[b] == grid_of(
            src@,
        )[b] by {
            assert(grid_of(r@)[b] == r@[b]@);
            assert(grid_of(src@)[b] == src@[b]@);
        }
        assert(grid_of(r@) =~= grid_of(src@));
    }
    r
}

/// Overwrites the trail intensity of the single cell at column `i`, row `j`,
/// leaving every other cell and every other field untouched.
fn set_trail(board: &mut Vec<Vec<Cell>>, i: usize, j: usize, t: u8)
    requires
        wf_grid(grid_of(old(board)@)),
        j < old(board)@.len(),
        i < cols_of(grid_of(old(board)@)),
    ensures
        final(board)@.len() == old(board)@.len(),
        wf_grid(grid_of(final(board)@)),
        cols_of(grid_of(final(board)@)) == cols_of(grid_of(old(board)@)),
        forall|a: int, b: int|
            0 <= a < cols_of(grid_of(old(board)@)) && 0 <= b < old(board)@.len() ==> (
            #[trigger] grid_of(final(board)@)[b][a]) == (if a == i && b == j {
                Cell {
                    alive: grid_of(old(board)@)[b][a].alive,
                    neighbors: grid_of(old(board)@)[b][a].neighbors,
                    trail_lifetime: t,
                }
            } else {
                grid_of(old(board)@)[b][a]
            }),
{
    proof {
        let g = grid_of(board@);
        assert(g[j as int] == board@[j as int]@);
        assert(g[j as int].len() == cols_of(g));
    }
    board[j][i].trail_lifetime = t;
    proof {
        let g0 = grid_of(old(board)@);
        let g1 = grid_of(board@);
        assert forall|a: int, b: int|
            0 <= a < cols_of(g0) && 0 <= b < old(board)@.len() implies (#[trigger] g1[b][a]) == (
        if a == i && b == j {
            Cell {
                alive: g0[b][a].alive,
                neighbors: g0[b][a].neighbors,
                trail_lifetime: t,
            }
        } else {
            g0[b][a]
        }) by {
            assert(g0[b] == old(board)@[b]@);
            assert(g1[b] == board@[b]@);
        }
        assert forall|b: int| 0 <= b < g1.len() implies #[trigger] g1[b].len() == g0[b].len() by {
            assert(g0[b] == old(board)@[b]@);
            assert(g1[b] == board@[b]@);
        }
    }
}

/// Applies the life rule and the trail-decay rule to the single cell at
/// column `x`, row `y` of the duplicate buffer, deciding from the tally `n`
/// read off the frozen pre-step grid `snapshot`. Every other cell's liveness
/// and trail are untouched, and the buffer's own cache invariant is kept.
#[verifier::rlimit(100)]
fn step_cell(
    back: &mut Vec<Vec<Cell>>,
    x: usize,
    y: usize,
    n: i8,
    Ghost(snapshot): Ghost<Seq<Seq<Cell>>>,
)
    requires
        wf_board(grid_of(old(back)@)),
        y < old(back)@.len(),
        x < cols_of(grid_of(old(back)@)),
        n as int == live_neighbors(snapshot, x as int, y as int),
        grid_of(old(back)@)[y as int][x as int].alive == snapshot[y as int][x as int].alive,
        grid_of(old(back)@)[y as int][x as int].trail_lifetime == snapshot[y as int][x as int].trail_lifetime,
    ensures
        final(back)@.len() == old(back)@.len(),
        wf_board(grid_of(final(back)@)),
        cols_of(grid_of(final(back)@)) == cols_of(grid_of(old(back)@)),
        forall|a: int, b: int|
            0 <= a < cols_of(grid_of(old(back)@)) && 0 <= b < old(back)@.len() && !(a == x && b
                == y) ==> (#[trigger] grid_of(final(back)@)[b][a]).alive == grid_of(
                old(back)@,
            )[b][a].alive && grid_of(final(back)@)[b][a].trail_lifetime == grid_of(
                old(back)@,
            )[b][a].trail_lifetime,
        grid_of(final(back)@)[y as int][x as int].alive == rule_alive(snapshot, x as int, y as int),
        grid_of(final(back)@)[y as int][x as int].trail_lifetime as int == next_trail(
            snapshot,
            x as int,
            y as int,
        ),
{
    let ghost gb0 = grid_of(back@);
    let ghost rr = back@.len() as int;
    let ghost cc = cols_of(gb0);
    if n == 2 {
    } else if n == 3 {
        set_cell(back, x, y, true);
    } else {
        set_cell(back, x, y, false);
    }
    let ghost gb1 = grid_of(back@);
    proof {
        assert(gb1[y as int] == back@[y as int]@);
        assert(gb1[y as int].len() == cols_of(gb1));
    }
    let c = back[y][x];
    if c.trail_lifetime > 0 && !c.alive {
        let nt = if c.trail_lifetime >= TRAIL_LIFETIME_DECREASE {
            c.trail_lifetime - TRAIL_LIFETIME_DECREASE
        } else {
            0
        };
        set_trail(back, x, y, nt);
        proof {
            let gb2 = grid_of(back@);
            lemma_same_alive_same_tallies(gb1, gb2);
            assert forall|a: int, b: int| 0 <= a < cc && 0 <= b < rr implies (
            #[trigger] gb2[b][a]).neighbors as int == live_neighbors(gb2, a, b) by {
                assert(gb2[b][a].neighbors == gb1[b][a].neighbors);
                assert(live_neighbors(gb2, a, b) == live_neighbors(gb1, a, b));
            }
            assert(counts_ok(gb2));
            assert(trails_ok(gb2));
        }
    }
}

/// The one live game: a row-major board of cells and the monotonic
/// generation counter.
pub struct GameOfLife {
    board: Vec<Vec<Cell>>,
    step: u128,
}

impl GameOfLife {
    /// The mathematical grid the game currently holds.
    pub closed spec fn grid(&self) -> Seq<Seq<Cell>> {
        grid_of(self.board@)
    }

    /// The generation counter: how many steps have been taken since the
    /// board was last populated.
    pub closed spec fn generation(&self) -> u128 {
        self.step
    }

    /// Number of rows of the board.
    pub open spec fn spec_rows(&self) -> int {
        self.grid().len() as int
    }

    /// Number of columns of the board.
    pub open spec fn spec_columns(&self) -> int {
        cols_of(self.grid())
    }

    /// The board is well shaped and its cache and trail invariants hold.
    pub open spec fn wf(&self) -> bool {
        wf_board(self.grid())
    }


    /// Builds a fresh game with the given shape, randomly populated: each
    /// cell is set alive independently with probability two in five, live
    /// cells start with a full trail, and the generation counter starts
    /// at 0.
    pub fn new(rows: usize, columns: usize) -> (game: GameOfLife)
        requires
            1 <= rows,
            1 <= columns,
        ensures
            game.wf(),
            game.spec_rows() == rows as int,
            game.spec_columns() == columns as int,
            game.generation() == 0,
            forall|x: int, y: int|
                0 <= x < columns && 0 <= y < rows ==> (
                #[trigger] game.grid()[y][x]).trail_lifetime == (if game.grid()[y][x].alive {
                    TRAIL_LIFETIME_MAX
                } else {
                    0
                }),
    {
        let mut game = GameOfLife { board: Vec::new(), step: 0 };
        game.create_random_board(rows, columns, 2, 5);
        game
    }

    /// Replaces the whole board with a fresh one of the given shape: each
    /// cell is set alive independently with probability `live_numerator /
    /// live_denominator`, live cells start with a full trail, dead cells with
    /// none, the generation counter resets to 0, and the cache is
    /// bootstrapped once at the end. A zero numerator is guaranteed to give
    /// an all-dead board; a numerator equal to the denominator an all-live
    /// one.
    pub fn create_random_board(
        &mut self,
        rows: usize,
        columns: usize,
        live_numerator: u32,
        live_denominator: u32,
    )
        requires
            1 <= rows,
            1 <= columns,
            0 < live_denominator,
            live_numerator <= live_denominator,
        ensures
            final(self).wf(),
            final(self).spec_rows() == rows as int,
            final(self).spec_columns() == columns as int,
            final(self).generation() == 0,
            forall|x: int, y: int|
                0 <= x < columns && 0 <= y < rows ==> (
                #[trigger] final(self).grid()[y][x]).trail_lifetime == (if final(self).grid()[y][x].alive {
                    TRAIL_LIFETIME_MAX
                } else {
                    0
                }),
            live_numerator == 0 ==> forall|x: int, y: int|
                0 <= x < columns && 0 <= y < rows ==> !(#[trigger] final(self).grid()[y][x]).alive,
            live_numerator == live_denominator ==> forall|x: int, y: int|
                0 <= x < columns && 0 <= y < rows ==> (#[trigger] final(self).grid()[y][x]).alive,
    {
        let mut board: Vec<Vec<Cell>> = Vec::new();
        let mut y: usize = 0;
        while y < rows
            invariant
                y <= rows,
                board@.len() == y,
                0 < live_denominator,
                live_numerator <= live_denominator,
                forall|j: int| 0 <= j < y ==> (#[trigger] board@[j]@).len() == columns,
                forall|i: int, j: int|
                    0 <= i < columns && 0 <= j < y ==> (#[trigger] board@[j]@[i]).neighbors == 0
                        && board@[j]@[i].trail_lifetime == (if board@[j]@[i].alive {
                        TRAIL_LIFETIME_MAX
                    } else {
                        0
                    }),
                live_numerator == 0 ==> forall|i: int, j: int|
                    0 <= i < columns && 0 <= j < y ==> !(#[trigger] board@[j]@[i]).alive,
                live_numerator == live_denominator ==> forall|i: int, j: int|
                    0 <= i < columns && 0 <= j < y ==> (#[trigger] board@[j]@[i]).alive,
            decreases rows - y,
        {
            let mut row: Vec<Cell> = Vec::new();
            let mut x: usize = 0;
            while x < columns
                invariant
                    x <= columns,
                    row@.len() == x,
                    0 < live_denominator,
                    live_numerator <= live_denominator,
                    forall|i: int|
                        0 <= i < x ==> (#[trigger] row@[i]).neighbors == 0
                            && row@[i].trail_lifetime == (if row@[i].alive {
                            TRAIL_LIFETIME_MAX
                        } else {
                            0
                        }),
                    live_numerator == 0 ==> forall|i: int| 0 <= i < x ==> !(#[trigger] row@[i]).alive,
                    live_numerator == live_denominator ==> forall|i: int|
                        0 <= i < x ==> (#[trigger] row@[i]).alive,
                decreases columns - x,
            {
                let alive = crate::rng::random_bool_ratio(live_numerator, live_denominator);
                row.push(
                    Cell {
                        alive,
                        neighbors: 0,
                        trail_lifetime: if alive {
                            TRAIL_LIFETIME_MAX
                        } else {
                            0
                        },
                    },
                );
                x = x + 1;
            }
            board.push(row);
            y = y + 1;
        }
        self.board = board;
        self.step = 0;
        proof {
            let g = self.grid();
            assert forall|j: int| 0 <= j < rows implies #[trigger] g[j].len() == columns by {
                assert(g[j] == self.board@[j]@);
            }
            assert(wf_grid(g));
            assert forall|i: int, j: int| 0 <= i < columns && 0 <= j < rows implies ((
            #[trigger] g[j][i]).alive ==> g[j][i].trail_lifetime == TRAIL_LIFETIME_MAX)
                && g[j][i].trail_lifetime <= TRAIL_LIFETIME_MAX && g[j][i].trail_lifetime == (if g[j][i].alive {
                TRAIL_LIFETIME_MAX
            } else {
                0
            }) by {
                assert(g[j][i] == self.board@[j]@[i]);
            }
            assert(trails_ok(g));
        }
        let ghost gpre = self.grid();
        self.init_neighbors_count();
        proof {
            if live_numerator == 0 {
                assert forall|x: int, y: int| 0 <= x < columns && 0 <= y < rows implies !(
                #[trigger] self.grid()[y][x]).alive by {
                    assert(self.grid()[y][x].alive == gpre[y][x].alive);
                }
            }
            if live_numerator == live_denominator {
                assert forall|x: int, y: int| 0 <= x < columns && 0 <= y < rows implies (
                #[trigger] self.grid()[y][x]).alive by {
                    assert(self.grid()[y][x].alive == gpre[y][x].alive);
                }
            }
        }
    }

    /// Replaces the whole board with an all-dead one of the given shape: no
    /// live cells, a zeroed cache, no trails, and the generation counter
    /// reset to 0.
    pub fn create_cleared_board(&mut self, rows: usize, columns: usize)
        requires
            1 <= rows,
            1 <= columns,
        ensures
            final(self).wf(),
            final(self).spec_rows() == rows as int,
            final(self).spec_columns() == columns as int,
            final(self).generation() == 0,
            forall|x: int, y: int|
                0 <= x < columns && 0 <= y < rows ==> #[trigger] final(self).grid()[y][x] == (Cell {
                    alive: false,
                    neighbors: 0,
                    trail_lifetime: 0,
                }),
    {
        self.create_random_board(rows, columns, 0, 1);
        proof {
            let g = self.grid();
            lemma_all_dead_tallies(g);
            assert forall|x: int, y: int| 0 <= x < columns && 0 <= y < rows implies #[trigger] g[y][x]
                == (Cell { alive: false, neighbors: 0, trail_lifetime: 0 }) by {
                assert(g[y][x].neighbors as int == live_neighbors(g, x, y));
                assert(live_neighbors(g, x, y) == 0);
            }
        }
    }

    /// Resets every cell to dead with a zero cache entry and no trail. The
    /// target state is uniformly zero, so a direct overwrite keeps the cache
    /// invariant without a rescan. The generation counter is untouched.
    pub fn clear_board(&mut self)
        requires
            wf_grid(old(self).grid()),
        ensures
            final(self).wf(),
            final(self).spec_rows() == old(self).spec_rows(),
            final(self).spec_columns() == old(self).spec_columns(),
            final(self).generation() == old(self).generation(),
            forall|x: int, y: int|
                0 <= x < old(self).spec_columns() && 0 <= y < old(self).spec_rows()
                    ==> #[trigger] final(self).grid()[y][x] == (Cell {
                    alive: false,
                    neighbors: 0,
                    trail_lifetime: 0,
                }),
    {
        let ghost g0 = self.grid();
        let ghost rr = self.board@.len() as int;
        let ghost cc = cols_of(g0);
        let rows = self.board.len();
        proof {
            assert forall|j: int| 0 <= j < rr implies #[trigger] self.board@[j]@.len() == cc by {
                assert(g0[j] == self.board@[j]@);
                assert(g0[j].len() == cols_of(g0));
            }
        }
        let mut y: usize = 0;
        while y < rows
            invariant
                y <= rows,
                rows == self.board@.len(),
                self.board@.len() == rr,
                self.step == old(self).step,
                forall|j: int| 0 <= j < rr ==> #[trigger] self.board@[j]@.len() == cc,
                forall|i: int, j: int|
                    0 <= i < cc && 0 <= j < y ==> #[trigger] self.board@[j]@[i] == (Cell {
                        alive: false,
                        neighbors: 0,
                        trail_lifetime: 0,
                    }),
            decreases rows - y,
        {
            let columns = self.board[y].len();
            let mut x: usize = 0;
            while x < columns
                invariant
                    x <= columns,
                    y < rows,
                    columns == cc,
                    rows == self.board@.len(),
                    self.board@.len() == rr,
                    self.step == old(self).step,
                    forall|j: int| 0 <= j < rr ==> #[trigger] self.board@[j]@.len() == cc,
                    forall|i: int, j: int|
                        0 <= i < cc && 0 <= j < y ==> #[trigger] self.board@[j]@[i] == (Cell {
                            alive: false,
                            neighbors: 0,
                            trail_lifetime: 0,
                        }),
                    forall|i: int|
                        0 <= i < x ==> #[trigger] self.board@[y as int]@[i] == (Cell {
                            alive: false,
                            neighbors: 0,
                            trail_lifetime: 0,
                        }),
                decreases columns - x,
            {
                self.board[y][x] = Cell { alive: false, neighbors: 0, trail_lifetime: 0 };
                x = x + 1;
            }
            y = y + 1;
        }
        proof {
            let g1 = self.grid();
            assert forall|i: int, j: int| 0 <= i < cc && 0 <= j < rr implies (#[trigger] g1[j][i])
                == (Cell { alive: false, neighbors: 0, trail_lifetime: 0 }) by {
                assert(g1[j] == self.board@[j]@);
            }
            assert forall|j: int| 0 <= j < rr implies #[trigger] g1[j].len() == cc by {
                assert(g1[j] == self.board@[j]@);
            }
            assert(wf_grid(g1));
            lemma_all_dead_tallies(g1);
            assert(counts_ok(g1));
            assert(trails_ok(g1));
        }
    }

    /// Recomputes every cell's cached count from scratch by tallying its
    /// eight toroidal neighbor slots, overwriting whatever the cache held.
    /// Used once after bulk population; it is also the reference definition
    /// of the cache invariant. Liveness, trails, and the generation counter
    /// are untouched.
    #[verifier::rlimit(100)]
    pub fn init_neighbors_count(&mut self)
        requires
            wf_grid(old(self).grid()),
        ensures
            final(self).spec_rows() == old(self).spec_rows(),
            final(self).spec_columns() == old(self).spec_columns(),
            final(self).generation() == old(self).generation(),
            wf_grid(final(self).grid()),
            counts_ok(final(self).grid()),
            forall|x: int, y: int|
                0 <= x < old(self).spec_columns() && 0 <= y < old(self).spec_rows() ==> (
                #[trigger] final(self).grid()[y][x]).alive == old(self).grid()[y][x].alive
                    && final(self).grid()[y][x].trail_lifetime == old(
                    self,
                ).grid()[y][x].trail_lifetime,
            trails_ok(old(self).grid()) ==> final(self).wf(),
    {
        let ghost g0 = self.grid();
        let ghost rr = self.board@.len() as int;
        let ghost cc = cols_of(g0);
        let rows = self.board.len();
        let columns = self.board[0].len();
        proof {
            assert(g0[0].len() == cols_of(g0));
        }
        let mut y: usize = 0;
        while y < rows
            invariant
                y <= rows,
                rows == self.board@.len(),
                self.board@.len() == rr,
                rr == g0.len(),
                columns == cc,
                cc == cols_of(g0),
                wf_grid(g0),
                wf_grid(grid_of(self.board@)),
                cols_of(grid_of(self.board@)) == cc,
                self.step == old(self).step,
                forall|i: int, j: int|
                    0 <= i < cc && 0 <= j < rr ==> (#[trigger] grid_of(self.board@)[j][i]).alive
                        == g0[j][i].alive && grid_of(self.board@)[j][i].trail_lifetime
                        == g0[j][i].trail_lifetime,
                forall|i: int, j: int|
                    0 <= i < cc && 0 <= j < y ==> (
                    #[trigger] grid_of(self.board@)[j][i]).neighbors as int == live_neighbors(
                        g0,
                        i,
                        j,
                    ),
            decreases rows - y,
        {
            let mut x: usize = 0;
            while x < columns
                invariant
                    x <= columns,
                    y < rows,
                    rows == self.board@.len(),
                    self.board@.len() == rr,
                    rr == g0.len(),
                    columns == cc,
                    cc == cols_of(g0),
                    wf_grid(g0),
                    wf_grid(grid_of(self.board@)),
                    cols_of(grid_of(self.board@)) == cc,
                    self.step == old(self).step,
                    forall|i: int, j: int|
                        0 <= i < cc && 0 <= j < rr ==> (
                        #[trigger] grid_of(self.board@)[j][i]).alive == g0[j][i].alive && grid_of(
                            self.board@,
                        )[j][i].trail_lifetime == g0[j][i].trail_lifetime,
                    forall|i: int, j: int|
                        0 <= i < cc && 0 <= j < y ==> (
                        #[trigger] grid_of(self.board@)[j][i]).neighbors as int == live_neighbors(
                            g0,
                            i,
                            j,
                        ),
                    forall|i: int|
                        0 <= i < x ==> (
                        #[trigger] grid_of(self.board@)[y as int][i]).neighbors as int
                            == live_neighbors(g0, i, y as int),
                decreases columns - x,
            {
                let n = count_live_neighbors(&self.board, x, y);
                proof {
                    lemma_same_alive_same_tallies(g0, grid_of(self.board@));
                }
                put_count(&mut self.board, x, y, n);
                x = x + 1;
            }
            y = y + 1;
        }
        proof {
            let g1 = self.grid();
            lemma_same_alive_same_tallies(g0, g1);
            assert(counts_ok(g1));
            if trails_ok(g0) {
                assert(trails_ok(g1));
            }
        }
    }

    /// Flips the liveness of the cell at column `x`, row `y` through the
    /// sanctioned mutation path.
    pub fn toggle_cell(&mut self, x: usize, y: usize)
        requires
            old(self).wf(),
            x < old(self).spec_columns(),
            y < old(self).spec_rows(),
        ensures
            final(self).wf(),
            set_cell_effect(
                old(self).grid(),
                final(self).grid(),
                x as int,
                y as int,
                !old(self).grid()[y as int][x as int].alive,
            ),
            final(self).generation() == old(self).generation(),
    {
        proof {
            assert(self.grid()[y as int] == self.board@[y as int]@);
            assert(self.grid()[y as int].len() == cols_of(self.grid()));
        }
        let toggle_value = !self.board[y][x].alive;
        set_cell(&mut self.board, x, y, toggle_value);
    }

    /// Sets the liveness of the cell at column `x`, row `y` through the
    /// sanctioned mutation path: a no-op when the cell already has that
    /// liveness, otherwise a flip with its cache delta.
    pub fn set_cell(&mut self, x: usize, y: usize, alive: bool)
        requires
            old(self).wf(),
            x < old(self).spec_columns(),
            y < old(self).spec_rows(),
        ensures
            final(self).wf(),
            set_cell_effect(old(self).grid(), final(self).grid(), x as int, y as int, alive),
            final(self).generation() == old(self).generation(),
            old(self).grid()[y as int][x as int].alive == alive ==> final(self).grid() == old(
                self,
            ).grid(),
    {
        set_cell(&mut self.board, x, y, alive);
    }


    /// Advances the board by exactly one generation: increments the counter,
    /// evaluates the classical rule for every cell against a frozen pre-step
    /// snapshot (so that earlier liveness changes cannot perturb the tallies
    /// later cells still need), applies trail decay to dead cells, and
    /// commits the duplicate buffer as the new board.
    #[verifier::rlimit(100)]
    pub fn update(&mut self)
        requires
            old(self).wf(),
            old(self).generation() < u128::MAX,
        ensures
            final(self).wf(),
            final(self).generation() == old(self).generation() + 1,
            step_effect(old(self).grid(), final(self).grid()),
    {
        self.step = self.step + 1;
        let ghost g0 = self.grid();
        let ghost rr = self.board@.len() as int;
        let ghost cc = cols_of(g0);
        let rows = self.board.len();
        let columns = self.board[0].len();
        proof {
            assert(g0[0].len() == cols_of(g0));
        }
        let mut back_buffer = copy_board(&self.board);

        let mut y: usize = 0;
        while y < rows
            invariant
                y <= rows,
                rows == self.board@.len(),
                self.board@.len() == rr,
                rr == g0.len(),
                columns == cc,
                cc == cols_of(g0),
                grid_of(self.board@) == g0,
                wf_board(g0),
                self.step == old(self).step + 1,
                back_buffer@.len() == rr,
                wf_board(grid_of(back_buffer@)),
                cols_of(grid_of(back_buffer@)) == cc,
                forall|i: int, j: int|
                    0 <= i < cc && 0 <= j < y ==> (#[trigger] grid_of(back_buffer@)[j][i]).alive
                        == rule_alive(g0, i, j) && grid_of(
                        back_buffer@,
                    )[j][i].trail_lifetime as int == next_trail(g0, i, j),
                forall|i: int, j: int|
                    0 <= i < cc && y <= j < rr ==> (#[trigger] grid_of(back_buffer@)[j][i]).alive
                        == g0[j][i].alive && grid_of(back_buffer@)[j][i].trail_lifetime
                        == g0[j][i].trail_lifetime,
            decreases rows - y,
        {
            let mut x: usize = 0;
            while x < columns
                invariant
                    x <= columns,
                    y < rows,
                    rows == self.board@.len(),
                    self.board@.len() == rr,
                    rr == g0.len(),
                    columns == cc,
                    cc == cols_of(g0),
                    grid_of(self.board@) == g0,
                    wf_board(g0),
                    self.step == old(self).step + 1,
                    back_buffer@.len() == rr,
                    wf_board(grid_of(back_buffer@)),
                    cols_of(grid_of(back_buffer@)) == cc,
                    forall|i: int, j: int|
                        0 <= i < cc && 0 <= j < y ==> (
                        #[trigger] grid_of(back_buffer@)[j][i]).alive == rule_alive(g0, i, j)
                            && grid_of(back_buffer@)[j][i].trail_lifetime as int == next_trail(
                            g0,
                            i,
                            j,
                        ),
                    forall|i: int|
                        0 <= i < x ==> (#[trigger] grid_of(back_buffer@)[y as int][i]).alive
                            == rule_alive(g0, i, y as int) && grid_of(
                            back_buffer@,
                        )[y as int][i].trail_lifetime as int == next_trail(g0, i, y as int),
                    forall|i: int, j: int|
                        0 <= i < cc && y <= j < rr && !(j == y && i < x) ==> (
                        #[trigger] grid_of(back_buffer@)[j][i]).alive == g0[j][i].alive && grid_of(
                            back_buffer@,
                        )[j][i].trail_lifetime == g0[j][i].trail_lifetime,
                decreases columns - x,
            {
                proof {
                    assert(g0[y as int] == self.board@[y as int]@);
                    assert(g0[y as int].len() == cc);
                }
                let n = self.board[y][x].neighbors;
                proof {
                    assert(n as int == live_neighbors(g0, x as int, y as int));
                }
                step_cell(&mut back_buffer, x, y, n, Ghost(g0));
                x = x + 1;
            }
            y = y + 1;
        }
        self.board = back_buffer;
        proof {
            assert(step_effect(g0, self.grid()));
        }
    }

    /// Read-only view of the cells for a renderer: row-major, top to bottom,
    /// left to right.
    pub fn board(&self) -> (r: &Vec<Vec<Cell>>)
        ensures
            grid_of(r@) == self.grid(),
            r@.len() == self.spec_rows(),
    {
        &self.board
    }


    /// Number of rows of the board.
    pub fn rows(&self) -> (r: usize)
        ensures
            r as int == self.spec_rows(),
    {
        self.board.len()
    }

    /// Number of columns of the board.
    pub fn columns(&self) -> (r: usize)
        requires
            wf_grid(self.grid()),
        ensures
            r as int == self.spec_columns(),
    {
        proof {
            assert(self.grid()[0] == self.board@[0]@);
        }
        self.board[0].len()
    }

    /// The current generation index.
    pub fn step(&self) -> (r: &u128)
        ensures
            *r == self.generation(),
    {
        &self.step
    }
}

} // verus!
