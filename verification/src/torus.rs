//! The game as mathematics: a square grid of cells whose edges wrap around,
//! the count of live neighbours, the rule of the game, and the moving of a
//! grid around the torus.
//!
//! A grid is a sequence of rows, a row a sequence of cells, a cell `true`
//! when it is alive.

use vstd::prelude::*;
use vstd::arithmetic::div_mod::{lemma_add_mod_noop_right, lemma_mod_bound, lemma_small_mod};

verus! {

/// `g` has `n` rows of `n` cells each.
pub open spec fn is_square(g: Seq<Seq<bool>>, n: int) -> bool {
    &&& g.len() == n
    &&& forall|r: int| 0 <= r < n ==> (#[trigger] g[r]).len() == n
}

/// The cell at row `r` and column `c`, where both wrap around the edges of
/// the grid: row `-1` is the last row, row `g.len()` the first.
pub open spec fn cell(g: Seq<Seq<bool>>, r: int, c: int) -> bool {
    g[r % (g.len() as int)][c % (g.len() as int)]
}

/// One for a live cell, zero for a dead one.
pub open spec fn living(alive: bool) -> nat {
    if alive {
        1
    } else {
        0
    }
}

/// How many of the eight cells around `(r, c)` are alive. The cell itself is
/// not counted.
pub open spec fn alive_neighbours(g: Seq<Seq<bool>>, r: int, c: int) -> nat {
    living(cell(g, r - 1, c - 1)) + living(cell(g, r - 1, c)) + living(cell(g, r - 1, c + 1))
        + living(cell(g, r, c - 1)) + living(cell(g, r, c + 1)) + living(cell(g, r + 1, c - 1))
        + living(cell(g, r + 1, c)) + living(cell(g, r + 1, c + 1))
}

/// The rule of the game: a live cell stays alive with two or three live
/// neighbours, a dead cell comes alive with exactly three.
pub open spec fn lives_on(alive: bool, neighbours: nat) -> bool {
    if alive {
        neighbours == 2 || neighbours == 3
    } else {
        neighbours == 3
    }
}

/// The next generation: the rule applied to every cell of `g` at once.
pub open spec fn step(g: Seq<Seq<bool>>) -> Seq<Seq<bool>> {
    Seq::new(
        g.len(),
        |r: int| Seq::new(g.len(), |c: int| lives_on(g[r][c], alive_neighbours(g, r, c))),
    )
}

/// The grid moved `down` rows and `right` columns around the torus: what was
/// at `(r, c)` is found at `(r + down, c + right)`.
pub open spec fn shifted(g: Seq<Seq<bool>>, down: int, right: int) -> Seq<Seq<bool>> {
    Seq::new(g.len(), |r: int| Seq::new(g.len(), |c: int| cell(g, r - down, c - right)))
}

/// No cell of `g` is alive.
pub open spec fn all_dead(g: Seq<Seq<bool>>) -> bool {
    forall|r: int, c: int| 0 <= r < g.len() && 0 <= c < g[r].len() ==> !(#[trigger] g[r][c])
}

/// The grid of side `n` without a live cell.
pub open spec fn dead_grid(n: int) -> Seq<Seq<bool>> {
    Seq::new(n as nat, |r: int| Seq::new(n as nat, |c: int| false))
}

/// Wrapping `x` before adding `d` changes nothing once the sum is wrapped.
pub proof fn lemma_wrap_add(x: int, d: int, n: int)
    requires
        n > 0,
    ensures
        (x % n + d) % n == (x + d) % n,
        0 <= x % n < n,
{
    lemma_add_mod_noop_right(d, x, n);
    lemma_mod_bound(x, n);
}

/// A cell inside the grid is its own wrapped cell.
pub proof fn lemma_cell_inside(g: Seq<Seq<bool>>, r: int, c: int)
    requires
        0 <= r < g.len(),
        0 <= c < g.len(),
    ensures
        cell(g, r, c) == g[r][c],
{
    lemma_small_mod(r as nat, g.len());
    lemma_small_mod(c as nat, g.len());
}

/// Nothing is born from nothing: the generation after a grid without a live
/// cell has no live cell either.
pub proof fn lemma_dead_stays_dead(g: Seq<Seq<bool>>, n: int)
    requires
        is_square(g, n),
        all_dead(g),
    ensures
        all_dead(step(g)),
{
    let next = step(g);
    assert forall|r: int, c: int|
        0 <= r < next.len() && 0 <= c < next[r].len() implies !(#[trigger] next[r][c]) by {
        lemma_no_live_neighbours(g, n, r, c);
        assert(!g[r][c]);
    }
}

/// In a grid without a live cell no cell has a live neighbour.
pub proof fn lemma_no_live_neighbours(g: Seq<Seq<bool>>, n: int, r: int, c: int)
    requires
        is_square(g, n),
        n > 0,
        all_dead(g),
    ensures
        alive_neighbours(g, r, c) == 0,
{
    assert forall|x: int, y: int| !cell(g, x, y) by {
        lemma_mod_bound(x, n);
        lemma_mod_bound(y, n);
        assert(!g[x % n][y % n]);
    }
}

/// The cell at `(r, c)` of the moved grid is the cell that was moved there.
pub proof fn lemma_cell_of_shifted(
    g: Seq<Seq<bool>>,
    n: int,
    down: int,
    right: int,
    r: int,
    c: int,
)
    requires
        is_square(g, n),
        n > 0,
    ensures
        cell(shifted(g, down, right), r, c) == cell(g, r - down, c - right),
{
    lemma_wrap_add(r, -down, n);
    lemma_wrap_add(c, -right, n);
}

/// The count of live neighbours moves with the grid: a cell of the moved grid
/// has as many live neighbours as the cell it came from, also where its
/// neighbourhood reaches across an edge.
pub proof fn lemma_neighbours_of_shifted(
    g: Seq<Seq<bool>>,
    n: int,
    down: int,
    right: int,
    r: int,
    c: int,
)
    requires
        is_square(g, n),
        n > 0,
    ensures
        alive_neighbours(shifted(g, down, right), r, c) == alive_neighbours(
            g,
            r - down,
            c - right,
        ),
{
    lemma_cell_of_shifted(g, n, down, right, r - 1, c - 1);
    lemma_cell_of_shifted(g, n, down, right, r - 1, c);
    lemma_cell_of_shifted(g, n, down, right, r - 1, c + 1);
    lemma_cell_of_shifted(g, n, down, right, r, c - 1);
    lemma_cell_of_shifted(g, n, down, right, r, c + 1);
    lemma_cell_of_shifted(g, n, down, right, r + 1, c - 1);
    lemma_cell_of_shifted(g, n, down, right, r + 1, c);
    lemma_cell_of_shifted(g, n, down, right, r + 1, c + 1);
}

/// The count of live neighbours depends on the cell alone, not on how many
/// turns around the torus its coordinates hold.
pub proof fn lemma_neighbours_wrap(g: Seq<Seq<bool>>, n: int, r: int, c: int)
    requires
        is_square(g, n),
        n > 0,
    ensures
        alive_neighbours(g, r % n, c % n) == alive_neighbours(g, r, c),
{
    lemma_wrap_add(r, -1, n);
    lemma_wrap_add(r, 0, n);
    lemma_wrap_add(r, 1, n);
    lemma_wrap_add(c, -1, n);
    lemma_wrap_add(c, 0, n);
    lemma_wrap_add(c, 1, n);
}

/// The rule of the game does not know where the grid begins: moving a grid
/// and then advancing it gives what advancing and then moving it gives.
pub proof fn lemma_step_of_shifted(g: Seq<Seq<bool>>, n: int, down: int, right: int)
    requires
        is_square(g, n),
        n > 0,
    ensures
        step(shifted(g, down, right)) == shifted(step(g), down, right),
{
    let moved = shifted(g, down, right);
    let a = step(moved);
    let b = shifted(step(g), down, right);
    assert forall|r: int| 0 <= r < n implies #[trigger] a[r] == b[r] by {
        assert forall|c: int| 0 <= c < n implies #[trigger] a[r][c] == b[r][c] by {
            lemma_neighbours_of_shifted(g, n, down, right, r, c);
            lemma_neighbours_wrap(g, n, r - down, c - right);
            lemma_mod_bound(r - down, n);
            lemma_mod_bound(c - right, n);
            lemma_cell_inside(moved, r, c);
            lemma_cell_of_shifted(g, n, down, right, r, c);
        }
        assert(a[r] =~= b[r]);
    }
    assert(a =~= b);
}

} // verus!
