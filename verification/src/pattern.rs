//! The text of a pattern and what loading it means.
//!
//! A pattern is text: one line for each row of the grid, one character for
//! each cell, `'1'` for a live cell and anything else for a dead one.

use vstd::prelude::*;
use vstd::arithmetic::div_mod::lemma_mod_bound;
use vstd::arithmetic::power2::lemma2_to64;
use vstd::string::StringExecFns;
use crate::point::{centering_shift, Point};
use crate::search::{
    first_index, last_index, lemma_first_index_exists, lemma_first_index_is,
    lemma_last_index_exists, lemma_last_index_is, lemma_one_more_index, lemma_same_indices,
};
use crate::torus::{
    cell, dead_grid, is_square, lemma_cell_inside, lemma_cell_of_shifted, shifted,
};

verus! {

/// Why a pattern could not be loaded.
#[derive(Clone, Copy, Debug, PartialEq, Eq, Structural)]
pub enum LoadError {
    /// The text holds a character for which the arena has no cell.
    ArenaTooSmall,
}

impl LoadError {
    /// The error in words.
    pub fn message(&self) -> (words: String)
        ensures
            words@ == "arena too small"@,
    {
        match self {
            LoadError::ArenaTooSmall => String::from_str("arena too small"),
        }
    }
}

/// The line at index `i` could not be read.
pub open spec fn unreadable(lines: Seq<Option<Seq<char>>>) -> spec_fn(int) -> bool {
    |i: int| lines[i] is None
}

/// The text that a reader's lines amount to: the lines before the first one
/// that could not be read. What follows such a line is not looked at.
pub open spec fn lines_read(lines: Seq<Option<Seq<char>>>) -> Seq<Seq<char>> {
    Seq::new(
        first_index(unreadable(lines), lines.len() as int) as nat,
        |i: int| lines[i]->0,
    )
}

/// The text has the character of a live cell at line `r`, place `c`.
pub open spec fn is_live(text: Seq<Seq<char>>, r: int, c: int) -> bool {
    &&& 0 <= r < text.len()
    &&& 0 <= c < text[r].len()
    &&& text[r][c] == '1'
}

/// Line `r` of the text holds a live cell.
pub open spec fn row_has_live(text: Seq<Seq<char>>, r: int) -> bool {
    exists|c: int| is_live(text, r, c)
}

/// Some line of the text holds a live cell at place `c`.
pub open spec fn col_has_live(text: Seq<Seq<char>>, c: int) -> bool {
    exists|r: int| is_live(text, r, c)
}

/// The rows of the text that hold a live cell.
pub open spec fn live_rows(text: Seq<Seq<char>>) -> spec_fn(int) -> bool {
    |r: int| row_has_live(text, r)
}

/// The columns of the text that hold a live cell.
pub open spec fn live_cols(text: Seq<Seq<char>>) -> spec_fn(int) -> bool {
    |c: int| col_has_live(text, c)
}

/// The upper left corner of the box around the live cells of the text: the
/// least row and the least column that hold one. Without a live cell it is
/// `(n, n)`.
pub open spec fn extent_start(text: Seq<Seq<char>>, n: int) -> Point {
    Point {
        row: first_index(live_rows(text), n) as usize,
        col: first_index(live_cols(text), n) as usize,
    }
}

/// The lower right corner of the box around the live cells of the text: the
/// greatest row and the greatest column that hold one. Without a live cell
/// it is `(0, 0)`.
pub open spec fn extent_end(text: Seq<Seq<char>>, n: int) -> Point {
    Point {
        row: last_index(live_rows(text), n) as usize,
        col: last_index(live_cols(text), n) as usize,
    }
}

/// Line `r` of the text holds a character, alive or dead, for which an arena
/// of side `n` has no cell.
pub open spec fn overflows(text: Seq<Seq<char>>, n: int, r: int) -> bool {
    &&& 0 <= r < text.len()
    &&& text[r].len() > 0
    &&& r >= n || text[r].len() > n
}

/// The lines of the text that do not fit an arena of side `n`.
pub open spec fn overflowing(text: Seq<Seq<char>>, n: int) -> spec_fn(int) -> bool {
    |r: int| overflows(text, n, r)
}

/// Every character of the text has a cell in an arena of side `n`.
pub open spec fn fits(text: Seq<Seq<char>>, n: int) -> bool {
    forall|r: int| !#[trigger] overflows(text, n, r)
}

/// The grid `g` with the text written over it: a cell that the text has a
/// character for is alive if that character is `'1'`, and dead if not; a cell
/// that the text does not reach is as it was.
pub open spec fn overlay(g: Seq<Seq<bool>>, text: Seq<Seq<char>>) -> Seq<Seq<bool>> {
    Seq::new(
        g.len(),
        |r: int|
            Seq::new(
                g[r].len(),
                |c: int|
                    if r < text.len() && c < text[r].len() {
                        text[r][c] == '1'
                    } else {
                        g[r][c]
                    },
            ),
    )
}

/// How far a text that fits is moved when it is loaded into an arena of side
/// `n`.
pub open spec fn load_shift(text: Seq<Seq<char>>, n: int) -> Point {
    centering_shift(extent_start(text, n), extent_end(text, n), n as usize)
}

/// The grid `g` of side `n` after a text that fits was loaded: the text is
/// written over the grid, and all of it is moved to centre the pattern.
pub open spec fn loaded(g: Seq<Seq<bool>>, text: Seq<Seq<char>>, n: int) -> Seq<Seq<bool>> {
    shifted(overlay(g, text), load_shift(text, n).row as int, load_shift(text, n).col as int)
}

/// The grid `g` of side `n` after the loading of a text that does not fit
/// was given up: the lines up to the first that does not fit are written
/// over the grid, as far as the grid has cells for them, and nothing is moved.
pub open spec fn given_up(g: Seq<Seq<bool>>, text: Seq<Seq<char>>, n: int) -> Seq<Seq<bool>> {
    overlay(g, text.take(first_index(overflowing(text, n), text.len() as int) + 1))
}

/// What loading does. From the grid `before`, of side `n`, and the lines of a
/// reader it gives `result` and leaves the grid `after`: the text is loaded
/// if and only if it fits, and given up with `ArenaTooSmall` if not.
pub open spec fn is_loading(
    before: Seq<Seq<bool>>,
    lines: Seq<Option<Seq<char>>>,
    n: int,
    result: Result<(), LoadError>,
    after: Seq<Seq<bool>>,
) -> bool {
    match result {
        Ok(()) => {
            &&& fits(lines_read(lines), n)
            &&& after == loaded(before, lines_read(lines), n)
        },
        Err(e) => {
            &&& e == LoadError::ArenaTooSmall
            &&& !fits(lines_read(lines), n)
            &&& after == given_up(before, lines_read(lines), n)
        },
    }
}

/// The text that shows a grid: a line for each row, `'1'` for a live cell and
/// `'0'` for a dead one.
pub open spec fn drawn(g: Seq<Seq<bool>>) -> Seq<Seq<char>> {
    Seq::new(
        g.len(),
        |r: int|
            Seq::new(
                g[r].len(),
                |c: int|
                    if g[r][c] {
                        '1'
                    } else {
                        '0'
                    },
            ),
    )
}

/// The lesser of two numbers.
pub open spec fn lesser(a: int, b: int) -> int {
    if a < b {
        a
    } else {
        b
    }
}

/// The greater of two numbers.
pub open spec fn greater(a: int, b: int) -> int {
    if a > b {
        a
    } else {
        b
    }
}

/// The corners of the box around the live cells lie in the arena, or on its
/// far edge where the text has no live cell.
pub proof fn lemma_extent_bounds(text: Seq<Seq<char>>, n: int)
    requires
        0 < n <= usize::MAX,
    ensures
        extent_start(text, n).row == first_index(live_rows(text), n) <= n,
        extent_start(text, n).col == first_index(live_cols(text), n) <= n,
        extent_end(text, n).row == last_index(live_rows(text), n) < n,
        extent_end(text, n).col == last_index(live_cols(text), n) < n,
{
    lemma_first_index_exists(live_rows(text), n);
    lemma_first_index_exists(live_cols(text), n);
    lemma_last_index_exists(live_rows(text), n);
    lemma_last_index_exists(live_cols(text), n);
}

/// Two texts with live cells at the same places have the same box around
/// them.
pub proof fn lemma_same_live_cells(a: Seq<Seq<char>>, b: Seq<Seq<char>>, n: int)
    requires
        0 <= n,
        forall|r: int, c: int| is_live(a, r, c) == is_live(b, r, c),
    ensures
        first_index(live_rows(a), n) == first_index(live_rows(b), n),
        first_index(live_cols(a), n) == first_index(live_cols(b), n),
        last_index(live_rows(a), n) == last_index(live_rows(b), n),
        last_index(live_cols(a), n) == last_index(live_cols(b), n),
        extent_start(a, n) == extent_start(b, n),
        extent_end(a, n) == extent_end(b, n),
{
    assert forall|i: int| row_has_live(a, i) == row_has_live(b, i) by {
        if row_has_live(a, i) {
            let c = choose|c: int| is_live(a, i, c);
            assert(is_live(b, i, c));
        }
        if row_has_live(b, i) {
            let c = choose|c: int| is_live(b, i, c);
            assert(is_live(a, i, c));
        }
    }
    assert forall|i: int| col_has_live(a, i) == col_has_live(b, i) by {
        if col_has_live(a, i) {
            let r = choose|r: int| is_live(a, r, i);
            assert(is_live(b, r, i));
        }
        if col_has_live(b, i) {
            let r = choose|r: int| is_live(b, r, i);
            assert(is_live(a, r, i));
        }
    }
    lemma_same_indices(live_rows(a), live_rows(b), n);
    lemma_same_indices(live_cols(a), live_cols(b), n);
}

/// A text with one more live cell than another, at row `r` and column `c`,
/// has the box of the other widened to hold that cell.
pub proof fn lemma_one_more_live_cell(
    a: Seq<Seq<char>>,
    b: Seq<Seq<char>>,
    n: int,
    r: int,
    c: int,
)
    requires
        0 <= r < n,
        0 <= c < n,
        is_live(b, r, c),
        forall|i: int, j: int| (i != r || j != c) ==> is_live(a, i, j) == is_live(b, i, j),
    ensures
        first_index(live_rows(b), n) == lesser(r, first_index(live_rows(a), n)),
        first_index(live_cols(b), n) == lesser(c, first_index(live_cols(a), n)),
        last_index(live_rows(b), n) == greater(r, last_index(live_rows(a), n)),
        last_index(live_cols(b), n) == greater(c, last_index(live_cols(a), n)),
{
    assert forall|i: int| i != r implies row_has_live(a, i) == row_has_live(b, i) by {
        if row_has_live(a, i) {
            let j = choose|j: int| is_live(a, i, j);
            assert(is_live(b, i, j));
        }
        if row_has_live(b, i) {
            let j = choose|j: int| is_live(b, i, j);
            assert(is_live(a, i, j));
        }
    }
    assert forall|j: int| j != c implies col_has_live(a, j) == col_has_live(b, j) by {
        if col_has_live(a, j) {
            let i = choose|i: int| is_live(a, i, j);
            assert(is_live(b, i, j));
        }
        if col_has_live(b, j) {
            let i = choose|i: int| is_live(b, i, j);
            assert(is_live(a, i, j));
        }
    }
    assert(row_has_live(b, r));
    assert(col_has_live(b, c));
    lemma_one_more_index(live_rows(a), live_rows(b), n, r);
    lemma_one_more_index(live_cols(a), live_cols(b), n, c);
}

/// A text without a live cell is centred like any other. Its box spans from
/// `(n, n)` to `(0, 0)`, so loading it moves the grid by `n` less half of
/// `n`, down and to the right.
pub proof fn lemma_shift_without_live_cell(text: Seq<Seq<char>>, n: int)
    requires
        0 < n <= usize::MAX,
        forall|r: int, c: int| !is_live(text, r, c),
    ensures
        extent_start(text, n) == (Point { row: n as usize, col: n as usize }),
        extent_end(text, n) == (Point { row: 0, col: 0 }),
        load_shift(text, n) == (Point { row: (n - n / 2) as usize, col: (n - n / 2) as usize }),
{
    assert forall|i: int| !row_has_live(text, i) && !col_has_live(text, i) by {}
    lemma_first_index_is(live_rows(text), n, n);
    lemma_first_index_is(live_cols(text), n, n);
    lemma_last_index_is(live_rows(text), n, 0);
    lemma_last_index_is(live_cols(text), n, 0);
    lemma2_to64();
}

/// A text with a live cell outside an arena of side `n` does not fit it.
pub proof fn lemma_live_cell_outside(text: Seq<Seq<char>>, n: int, r: int, c: int)
    requires
        is_live(text, r, c),
        r >= n || c >= n,
    ensures
        !fits(text, n),
{
    assert(overflows(text, n, r));
}

/// Loading the same lines twice, each time into an arena of side `n` without
/// a live cell, gives the same result and the same grid both times.
pub proof fn lemma_loading_repeats(
    lines: Seq<Option<Seq<char>>>,
    n: int,
    first_result: Result<(), LoadError>,
    first_grid: Seq<Seq<bool>>,
    second_result: Result<(), LoadError>,
    second_grid: Seq<Seq<bool>>,
)
    requires
        is_loading(dead_grid(n), lines, n, first_result, first_grid),
        is_loading(dead_grid(n), lines, n, second_result, second_grid),
    ensures
        first_result == second_result,
        first_grid == second_grid,
{
    match (first_result, second_result) {
        (Ok(a), Ok(b)) => {
            assert(a == () && b == ());
        },
        _ => {},
    }
}

/// A text that fits an arena without a live cell is loaded, whole and
/// nothing else: a cell of the arena is alive exactly if the text has a live
/// cell at the place that the cell was moved from. So every cell outside the
/// moved pattern is dead.
pub proof fn lemma_loaded_cells(text: Seq<Seq<char>>, n: int, r: int, c: int)
    requires
        0 < n,
        fits(text, n),
        0 <= r < n,
        0 <= c < n,
    ensures
        loaded(dead_grid(n), text, n)[r][c] == is_live(
            text,
            (r - load_shift(text, n).row) % n,
            (c - load_shift(text, n).col) % n,
        ),
{
    let written = overlay(dead_grid(n), text);
    let from_row = (r - load_shift(text, n).row) % n;
    let from_col = (c - load_shift(text, n).col) % n;
    lemma_mod_bound(r - load_shift(text, n).row, n);
    lemma_mod_bound(c - load_shift(text, n).col, n);
    assert(written[from_row][from_col] == is_live(text, from_row, from_col));
}

/// Every live cell of a text that fits is alive in the arena it was loaded
/// into, at its place moved by the shift of the loading.
pub proof fn lemma_loaded_pattern(
    before: Seq<Seq<bool>>,
    text: Seq<Seq<char>>,
    n: int,
    r: int,
    c: int,
)
    requires
        0 < n,
        is_square(before, n),
        fits(text, n),
        is_live(text, r, c),
    ensures
        cell(loaded(before, text, n), r + load_shift(text, n).row, c + load_shift(text, n).col),
{
    let written = overlay(before, text);
    let down = load_shift(text, n).row as int;
    let right = load_shift(text, n).col as int;
    assert(!overflows(text, n, r));
    assert(written[r][c]);
    lemma_cell_of_shifted(written, n, down, right, r + down, c + right);
    lemma_cell_inside(written, r, c);
}

/// Drawing a grid and loading the drawing gives the grid back, before it is
/// centred: the drawing fits, and written over any grid of the same side it
/// leaves the grid that was drawn.
pub proof fn lemma_drawn_reads_back(g: Seq<Seq<bool>>, under: Seq<Seq<bool>>, n: int)
    requires
        is_square(g, n),
        is_square(under, n),
    ensures
        fits(drawn(g), n),
        overlay(under, drawn(g)) == g,
{
    assert(overlay(under, drawn(g)) =~~= g);
}

} // verus!
