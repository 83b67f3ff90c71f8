//! Reading a pattern character by character: what has been read at each
//! moment, and how the grid and the box around the live cells follow it.

use vstd::prelude::*;
use crate::pattern::{
    col_has_live, fits, given_up, greater, is_live, lemma_one_more_live_cell,
    lemma_same_live_cells, lesser, lines_read, live_cols, live_rows, overflowing, overflows,
    overlay, row_has_live, unreadable,
};
use crate::point::Point;
use crate::search::{
    first_index, last_index, lemma_first_index_exists, lemma_first_index_is,
    lemma_last_index_is,
};
use crate::torus::is_square;

verus! {

/// The first `row` lines of a reader, all of which could be read.
pub(crate) open spec fn lines_done(lines: Seq<Option<Seq<char>>>, row: int) -> Seq<Seq<char>> {
    Seq::new(row as nat, |i: int| lines[i]->0)
}

/// The first `row` lines of a reader and the first `col` characters of the
/// line after them.
pub(crate) open spec fn chars_done(
    lines: Seq<Option<Seq<char>>>,
    row: int,
    col: int,
) -> Seq<Seq<char>> {
    lines_done(lines, row).push((lines[row]->0).take(col))
}

/// `start` and `end` are the corners of the box around the live cells of the
/// text, as they are kept while it is read.
pub(crate) open spec fn boxed(text: Seq<Seq<char>>, n: int, start: Point, end: Point) -> bool {
    &&& start.row == first_index(live_rows(text), n)
    &&& start.col == first_index(live_cols(text), n)
    &&& end.row == last_index(live_rows(text), n)
    &&& end.col == last_index(live_cols(text), n)
}

/// Before anything is read the grid is untouched and the box is empty.
pub(crate) proof fn lemma_nothing_read(
    before: Seq<Seq<bool>>,
    all: Seq<Option<Seq<char>>>,
    size: usize,
)
    requires
        is_square(before, size as int),
        size > 0,
    ensures
        fits(lines_done(all, 0), size as int),
        overlay(before, lines_done(all, 0)) == before,
        boxed(
            lines_done(all, 0),
            size as int,
            Point { row: size, col: size },
            Point { row: 0, col: 0 },
        ),
{
    let text = lines_done(all, 0);
    let n = size as int;
    assert(overlay(before, text) =~~= before);
    assert forall|r: int| !row_has_live(text, r) by {
        assert forall|c: int| !is_live(text, r, c) by {}
    }
    assert forall|c: int| !col_has_live(text, c) by {
        assert forall|r: int| !is_live(text, r, c) by {}
    }
    lemma_first_index_is(live_rows(text), n, n);
    lemma_first_index_is(live_cols(text), n, n);
    lemma_last_index_is(live_rows(text), n, 0);
    lemma_last_index_is(live_cols(text), n, 0);
}

/// Beginning a line changes neither the grid nor the box.
pub(crate) proof fn lemma_line_begun(
    before: Seq<Seq<bool>>,
    all: Seq<Option<Seq<char>>>,
    n: int,
    row: int,
    start: Point,
    end: Point,
)
    requires
        0 <= row,
        0 <= n,
        boxed(lines_done(all, row), n, start, end),
    ensures
        boxed(chars_done(all, row, 0), n, start, end),
        overlay(before, chars_done(all, row, 0)) == overlay(before, lines_done(all, row)),
{
    let a = lines_done(all, row);
    let b = chars_done(all, row, 0);
    assert forall|r: int, c: int| is_live(a, r, c) == is_live(b, r, c) by {}
    lemma_same_live_cells(a, b, n);
    assert(overlay(before, b) =~~= overlay(before, a));
}

/// Reading one more character of a line widens the box by its cell if it is
/// alive, and leaves the box as it is if not.
pub(crate) proof fn lemma_char_read(
    all: Seq<Option<Seq<char>>>,
    n: int,
    row: int,
    col: int,
    start: Point,
    end: Point,
)
    requires
        0 <= row < n,
        0 <= col < n,
        all[row] is Some,
        col < (all[row]->0).len(),
        boxed(chars_done(all, row, col), n, start, end),
    ensures
        ({
            let next = chars_done(all, row, col + 1);
            if (all[row]->0)[col] == '1' {
                &&& first_index(live_rows(next), n) == lesser(row, start.row as int)
                &&& first_index(live_cols(next), n) == lesser(col, start.col as int)
                &&& last_index(live_rows(next), n) == greater(row, end.row as int)
                &&& last_index(live_cols(next), n) == greater(col, end.col as int)
            } else {
                boxed(next, n, start, end)
            }
        }),
{
    let a = chars_done(all, row, col);
    let b = chars_done(all, row, col + 1);
    if (all[row]->0)[col] == '1' {
        assert(is_live(b, row, col));
        assert forall|i: int, j: int| (i != row || j != col) implies is_live(a, i, j) == is_live(
            b,
            i,
            j,
        ) by {}
        lemma_one_more_live_cell(a, b, n, row, col);
    } else {
        assert forall|r: int, c: int| is_live(a, r, c) == is_live(b, r, c) by {}
        lemma_same_live_cells(a, b, n);
    }
}

/// With its last character read, a line is done; it fits if it ended before
/// the arena did.
pub(crate) proof fn lemma_line_ended(all: Seq<Option<Seq<char>>>, n: int, row: int, col: int)
    requires
        0 <= row,
        all[row] is Some,
        col == (all[row]->0).len(),
        row < n ==> col <= n,
        row >= n ==> col == 0,
        fits(lines_done(all, row), n),
    ensures
        chars_done(all, row, col) == lines_done(all, row + 1),
        fits(lines_done(all, row + 1), n),
{
    let a = lines_done(all, row);
    let b = lines_done(all, row + 1);
    assert(chars_done(all, row, col) =~~= b);
    assert forall|r: int| !#[trigger] overflows(b, n, r) by {
        if 0 <= r < row {
            assert(!overflows(a, n, r));
        }
    }
}

/// At the first character without a cell the text is known not to fit, and
/// the grid is what giving up leaves.
pub(crate) proof fn lemma_given_up(
    before: Seq<Seq<bool>>,
    all: Seq<Option<Seq<char>>>,
    n: int,
    row: int,
    col: int,
)
    requires
        is_square(before, n),
        0 <= row < all.len(),
        forall|i: int| 0 <= i <= row ==> (#[trigger] all[i]) is Some,
        0 <= col < (all[row]->0).len(),
        (row >= n && col == 0) || (row < n && col == n),
        fits(lines_done(all, row), n),
    ensures
        !fits(lines_read(all), n),
        given_up(before, lines_read(all), n) == overlay(before, chars_done(all, row, col)),
{
    let text = lines_read(all);
    lemma_first_index_exists(unreadable(all), all.len() as int);
    let count = first_index(unreadable(all), all.len() as int);
    if count <= row {
        assert(all[count] is Some);
    }
    assert(overflows(text, n, row));
    assert forall|r: int| 0 <= r < row implies !#[trigger] overflowing(text, n)(r) by {
        assert(!overflows(lines_done(all, row), n, r));
    }
    lemma_first_index_is(overflowing(text, n), text.len() as int, row);
    assert(given_up(before, text, n) =~~= overlay(before, chars_done(all, row, col)));
}

} // verus!
