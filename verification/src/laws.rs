//! Board-level laws of the automaton, stated and proved against the same
//! spec functions the engine's contracts use: fixed points, still lifes, the
//! blinker oscillator, trail fading, and the wrap-around of the cache deltas.

use vstd::prelude::*;

use crate::grid::{
    cols_of, decayed_trail, lemma_all_dead_tallies, lemma_flip_changes_counts, live_neighbors,
    neighbor_multiplicity, next_trail, rule_alive, trails_ok, wf_board, wf_grid, wrap_dec,
    wrap_inc, Cell, TRAIL_LIFETIME_DECREASE, TRAIL_LIFETIME_MAX,
};

verus! {

/// An all-dead board with no trails is a fixed point of the generation step:
/// every tally is 0, so no cell turns alive and every trail stays at 0.
pub proof fn lemma_all_dead_fixed_point(g: Seq<Seq<Cell>>)
    requires
        wf_grid(g),
        forall|x: int, y: int|
            0 <= x < cols_of(g) && 0 <= y < g.len() ==> !(#[trigger] g[y][x]).alive
                && g[y][x].trail_lifetime == 0,
    ensures
        forall|x: int, y: int|
            0 <= x < cols_of(g) && 0 <= y < g.len() ==> #[trigger] live_neighbors(g, x, y) == 0,
        forall|x: int, y: int|
            0 <= x < cols_of(g) && 0 <= y < g.len() ==> !rule_alive(g, x, y) && next_trail(g, x, y)
                == 0,
{
    lemma_all_dead_tallies(g);
}

/// Exactly the four cells of a two-by-two block with lower column `a` and
/// lower row `b` are alive.
pub open spec fn is_block(g: Seq<Seq<Cell>>, a: int, b: int) -> bool {
    forall|x: int, y: int|
        0 <= x < cols_of(g) && 0 <= y < g.len() ==> ((#[trigger] g[y][x]).alive <==> ((x == a || x
            == a + 1) && (y == b || y == b + 1)))
}

/// A two-by-two block of live cells on an otherwise dead board at least four
/// cells wide and tall is a still life: one generation step changes no cell's
/// liveness, and with live trails full and dead trails empty it changes no
/// trail either.
#[verifier::rlimit(100)]
pub proof fn lemma_block_still_life(g: Seq<Seq<Cell>>, a: int, b: int)
    requires
        wf_grid(g),
        4 <= g.len(),
        4 <= cols_of(g),
        0 <= a,
        a + 1 < cols_of(g),
        0 <= b,
        b + 1 < g.len(),
        is_block(g, a, b),
    ensures
        forall|x: int, y: int|
            0 <= x < cols_of(g) && 0 <= y < g.len() ==> (rule_alive(g, x, y) <==> (
            #[trigger] g[y][x]).alive),
        (trails_ok(g) && (forall|x: int, y: int|
            0 <= x < cols_of(g) && 0 <= y < g.len() && !(#[trigger] g[y][x]).alive
                ==> g[y][x].trail_lifetime == 0)) ==> forall|x: int, y: int|
            0 <= x < cols_of(g) && 0 <= y < g.len() ==> next_trail(g, x, y) == (
            #[trigger] g[y][x]).trail_lifetime,
{
    let rr = g.len() as int;
    let cc = cols_of(g);
    assert forall|x: int, y: int| 0 <= x < cc && 0 <= y < rr implies (rule_alive(g, x, y) <==> (
    #[trigger] g[y][x]).alive) by {
        let t = wrap_dec(y, rr);
        let dn = wrap_inc(y, rr);
        let l = wrap_dec(x, cc);
        let r = wrap_inc(x, cc);
        assert(g[t][x].alive <==> ((x == a || x == a + 1) && (t == b || t == b + 1)));
        assert(g[t][l].alive <==> ((l == a || l == a + 1) && (t == b || t == b + 1)));
        assert(g[t][r].alive <==> ((r == a || r == a + 1) && (t == b || t == b + 1)));
        assert(g[y][l].alive <==> ((l == a || l == a + 1) && (y == b || y == b + 1)));
        assert(g[y][r].alive <==> ((r == a || r == a + 1) && (y == b || y == b + 1)));
        assert(g[dn][x].alive <==> ((x == a || x == a + 1) && (dn == b || dn == b + 1)));
        assert(g[dn][l].alive <==> ((l == a || l == a + 1) && (dn == b || dn == b + 1)));
        assert(g[dn][r].alive <==> ((r == a || r == a + 1) && (dn == b || dn == b + 1)));
    }
}

/// Exactly the three cells in the row `b` at columns `a - 1`, `a`, `a + 1`
/// are alive: a horizontal blinker centered at `(a, b)`.
pub open spec fn is_horizontal_blinker(g: Seq<Seq<Cell>>, a: int, b: int) -> bool {
    forall|x: int, y: int|
        0 <= x < cols_of(g) && 0 <= y < g.len() ==> ((#[trigger] g[y][x]).alive <==> (y == b && (x
            == a - 1 || x == a || x == a + 1)))
}

/// Exactly the three cells in the column `a` at rows `b - 1`, `b`, `b + 1`
/// are alive: a vertical blinker centered at `(a, b)`.
pub open spec fn is_vertical_blinker(g: Seq<Seq<Cell>>, a: int, b: int) -> bool {
    forall|x: int, y: int|
        0 <= x < cols_of(g) && 0 <= y < g.len() ==> ((#[trigger] g[y][x]).alive <==> (x == a && (y
            == b - 1 || y == b || y == b + 1)))
}

/// One generation step turns a horizontal blinker centered at `(a, b)`, its
/// three cells inside a board at least five cells wide and tall, into the
/// vertical blinker with the same center; together with the converse law this
/// brings the pattern back to its original liveness after exactly two steps.
#[verifier::rlimit(100)]
pub proof fn lemma_blinker_horizontal_to_vertical(g: Seq<Seq<Cell>>, a: int, b: int)
    requires
        wf_grid(g),
        5 <= g.len(),
        5 <= cols_of(g),
        1 <= a,
        a + 1 < cols_of(g),
        1 <= b,
        b + 1 < g.len(),
        is_horizontal_blinker(g, a, b),
    ensures
        forall|x: int, y: int|
            0 <= x < cols_of(g) && 0 <= y < g.len() ==> (rule_alive(g, x, y) <==> (x == a && (y == b
                - 1 || y == b || y == b + 1))),
{
    let rr = g.len() as int;
    let cc = cols_of(g);
    assert forall|x: int, y: int| 0 <= x < cc && 0 <= y < rr implies (rule_alive(g, x, y) <==> (x
        == a && (y == b - 1 || y == b || y == b + 1))) by {
        let t = wrap_dec(y, rr);
        let dn = wrap_inc(y, rr);
        let l = wrap_dec(x, cc);
        let r = wrap_inc(x, cc);
        assert(g[t][x].alive <==> (t == b && (x == a - 1 || x == a || x == a + 1)));
        assert(g[t][l].alive <==> (t == b && (l == a - 1 || l == a || l == a + 1)));
        assert(g[t][r].alive <==> (t == b && (r == a - 1 || r == a || r == a + 1)));
        assert(g[y][l].alive <==> (y == b && (l == a - 1 || l == a || l == a + 1)));
        assert(g[y][r].alive <==> (y == b && (r == a - 1 || r == a || r == a + 1)));
        assert(g[dn][x].alive <==> (dn == b && (x == a - 1 || x == a || x == a + 1)));
        assert(g[dn][l].alive <==> (dn == b && (l == a - 1 || l == a || l == a + 1)));
        assert(g[dn][r].alive <==> (dn == b && (r == a - 1 || r == a || r == a + 1)));
        assert(g[y][x].alive <==> (y == b && (x == a - 1 || x == a || x == a + 1)));
    }
}

/// One generation step turns a vertical blinker centered at `(a, b)`, its
/// three cells inside a board at least five cells wide and tall, back into the
/// horizontal blinker with the same center.
#[verifier::rlimit(100)]
pub proof fn lemma_blinker_vertical_to_horizontal(g: Seq<Seq<Cell>>, a: int, b: int)
    requires
        wf_grid(g),
        5 <= g.len(),
        5 <= cols_of(g),
        1 <= a,
        a + 1 < cols_of(g),
        1 <= b,
        b + 1 < g.len(),
        is_vertical_blinker(g, a, b),
    ensures
        forall|x: int, y: int|
            0 <= x < cols_of(g) && 0 <= y < g.len() ==> (rule_alive(g, x, y) <==> (y == b && (x == a
                - 1 || x == a || x == a + 1))),
{
    let rr = g.len() as int;
    let cc = cols_of(g);
    assert forall|x: int, y: int| 0 <= x < cc && 0 <= y < rr implies (rule_alive(g, x, y) <==> (y
        == b && (x == a - 1 || x == a || x == a + 1))) by {
        let t = wrap_dec(y, rr);
        let dn = wrap_inc(y, rr);
        let l = wrap_dec(x, cc);
        let r = wrap_inc(x, cc);
        assert(g[t][x].alive <==> (x == a && (t == b - 1 || t == b || t == b + 1)));
        assert(g[t][l].alive <==> (l == a && (t == b - 1 || t == b || t == b + 1)));
        assert(g[t][r].alive <==> (r == a && (t == b - 1 || t == b || t == b + 1)));
        assert(g[y][l].alive <==> (l == a && (y == b - 1 || y == b || y == b + 1)));
        assert(g[y][r].alive <==> (r == a && (y == b - 1 || y == b || y == b + 1)));
        assert(g[dn][x].alive <==> (x == a && (dn == b - 1 || dn == b || dn == b + 1)));
        assert(g[dn][l].alive <==> (l == a && (dn == b - 1 || dn == b || dn == b + 1)));
        assert(g[dn][r].alive <==> (r == a && (dn == b - 1 || dn == b || dn == b + 1)));
        assert(g[y][x].alive <==> (x == a && (y == b - 1 || y == b || y == b + 1)));
    }
}

/// The trail a dead cell holds after `k` generations of fading from `t`.
pub open spec fn decayed_trail_iter(t: int, k: nat) -> int
    decreases k,
{
    if k == 0 {
        t
    } else {
        decayed_trail(decayed_trail_iter(t, (k - 1) as nat))
    }
}

/// A trail that starts at `t` and fades while the cell stays dead loses the
/// decrease step each generation, floored at 0; from the maximum it reaches 0
/// after exactly `TRAIL_LIFETIME_MAX / TRAIL_LIFETIME_DECREASE` generations
/// and stays there.
pub proof fn lemma_trail_fades_to_zero(t: int, k: nat)
    requires
        0 <= t,
    ensures
        decayed_trail_iter(t, k) == (if t - TRAIL_LIFETIME_DECREASE * k >= 0 {
            t - TRAIL_LIFETIME_DECREASE * k
        } else {
            0
        }),
    decreases k,
{
    if k > 0 {
        lemma_trail_fades_to_zero(t, (k - 1) as nat);
    }
}

/// Toggling the cell at the origin of a board at least three cells wide and
/// tall moves the cached count of exactly its eight neighbors by one --
/// among them the three wrap-around neighbors on the far edges -- and leaves
/// the count of every other cell untouched.
pub proof fn lemma_toggle_origin_wraps(g0: Seq<Seq<Cell>>, g1: Seq<Seq<Cell>>)
    requires
        wf_board(g0),
        wf_board(g1),
        g1.len() == g0.len(),
        cols_of(g1) == cols_of(g0),
        3 <= g0.len(),
        3 <= cols_of(g0),
        forall|i: int, j: int|
            0 <= i < cols_of(g0) && 0 <= j < g0.len() && !(i == 0 && j == 0) ==> (
            #[trigger] g1[j][i]).alive == g0[j][i].alive,
        g1[0][0].alive == !g0[0][0].alive,
    ensures
        ({
            let d: int = if g1[0][0].alive {
                1
            } else {
                -1
            };
            let rr = g0.len() as int;
            let cc = cols_of(g0);
            &&& g1[0][cc - 1].neighbors as int == g0[0][cc - 1].neighbors + d
            &&& g1[rr - 1][0].neighbors as int == g0[rr - 1][0].neighbors + d
            &&& g1[rr - 1][cc - 1].neighbors as int == g0[rr - 1][cc - 1].neighbors + d
            &&& g1[0][1].neighbors as int == g0[0][1].neighbors + d
            &&& g1[1][0].neighbors as int == g0[1][0].neighbors + d
            &&& g1[1][1].neighbors as int == g0[1][1].neighbors + d
            &&& g1[1][cc - 1].neighbors as int == g0[1][cc - 1].neighbors + d
            &&& g1[rr - 1][1].neighbors as int == g0[rr - 1][1].neighbors + d
            &&& forall|i: int, j: int|
                0 <= i < cc && 0 <= j < rr && !((i == 0 || i == 1 || i == cc - 1) && (j == 0 || j
                    == 1 || j == rr - 1)) ==> (#[trigger] g1[j][i]).neighbors == g0[j][i].neighbors
            &&& g1[0][0].neighbors == g0[0][0].neighbors
        }),
{
    let rr = g0.len() as int;
    let cc = cols_of(g0);
    lemma_flip_changes_counts(g0, g1, 0, 0);
    assert forall|i: int, j: int|
        0 <= i < cc && 0 <= j < rr && !((i == 0 || i == 1 || i == cc - 1) && (j == 0 || j == 1 || j
            == rr - 1)) implies (#[trigger] g1[j][i]).neighbors == g0[j][i].neighbors by {
        assert(neighbor_multiplicity(rr, cc, 0, 0, i, j) == 0);
        assert(live_neighbors(g1, i, j) == live_neighbors(g0, i, j));
        assert(g0[j][i].neighbors as int == live_neighbors(g0, i, j));
        assert(g1[j][i].neighbors as int == live_neighbors(g1, i, j));
    }
    assert(neighbor_multiplicity(rr, cc, 0, 0, cc - 1, 0) == 1);
    assert(neighbor_multiplicity(rr, cc, 0, 0, 0, rr - 1) == 1);
    assert(neighbor_multiplicity(rr, cc, 0, 0, cc - 1, rr - 1) == 1);
    assert(neighbor_multiplicity(rr, cc, 0, 0, 1, 0) == 1);
    assert(neighbor_multiplicity(rr, cc, 0, 0, 0, 1) == 1);
    assert(neighbor_multiplicity(rr, cc, 0, 0, 1, 1) == 1);
    assert(neighbor_multiplicity(rr, cc, 0, 0, cc - 1, 1) == 1);
    assert(neighbor_multiplicity(rr, cc, 0, 0, 1, rr - 1) == 1);
    assert(neighbor_multiplicity(rr, cc, 0, 0, 0, 0) == 0);
    assert(live_neighbors(g1, 0, 0) == live_neighbors(g0, 0, 0));
}

} // verus!
