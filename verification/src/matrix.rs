//! The grid engine: a dense square matrix of cells, its neighbour count and
//! the step from one generation to the next.

use vstd::prelude::*;
use vstd::string::StringExecFns;
use vstd::arithmetic::div_mod::{
    lemma_mod_add_multiples_vanish, lemma_small_mod, lemma_sub_mod_noop_right,
};
use crate::pattern::{
    drawn, fits, is_loading, lemma_extent_bounds, lines_read, overlay, unreadable, LoadError,
};
use crate::point::{centering_shift, Point};
use crate::scan::{
    boxed, chars_done, lemma_char_read, lemma_given_up, lemma_line_begun, lemma_line_ended,
    lemma_nothing_read, lines_done,
};
use crate::search::{is_first_index, lemma_first_index_is};
use crate::torus::{
    alive_neighbours, all_dead, cell, dead_grid, is_square, lemma_dead_stays_dead, lives_on,
    living, shifted, step,
};

verus! {

/// A square grid of cells, `true` for a live one. Its side is fixed when it
/// is made.
#[derive(Debug, PartialEq)]
pub struct Matrix {
    pub m: Vec<Vec<bool>>,
    size: usize,
}

impl View for Matrix {
    type V = Seq<Seq<bool>>;

    /// The rows of the grid, each a sequence of cells.
    closed spec fn view(&self) -> Seq<Seq<bool>> {
        Seq::new(self.m@.len(), |r: int| self.m@[r]@)
    }
}

impl Clone for Matrix {
    /// A grid of the same side with the same cells.
    fn clone(&self) -> (copy: Matrix)
        ensures
            copy@ == self@,
            copy.spec_capacity() == self.spec_capacity(),
    {
        let mut m: Vec<Vec<bool>> = Vec::with_capacity(self.m.len());
        let mut row_idx: usize = 0;
        while row_idx < self.m.len()
            invariant
                row_idx <= self.m@.len(),
                m@.len() == row_idx,
                forall|r: int| 0 <= r < row_idx ==> (#[trigger] m@[r])@ == self.m@[r]@,
            decreases self.m@.len() - row_idx,
        {
            let line: &Vec<bool> = &self.m[row_idx];
            let mut copy: Vec<bool> = Vec::with_capacity(line.len());
            let mut col_idx: usize = 0;
            while col_idx < line.len()
                invariant
                    col_idx <= line@.len(),
                    copy@.len() == col_idx,
                    forall|c: int| 0 <= c < col_idx ==> #[trigger] copy@[c] == line@[c],
                decreases line@.len() - col_idx,
            {
                copy.push(line[col_idx]);
                col_idx = col_idx + 1;
            }
            assert(copy@ =~= line@);
            m.push(copy);
            row_idx = row_idx + 1;
        }
        let copy = Matrix { m, size: self.size };
        assert(copy@ =~= self@);
        copy
    }
}

impl Matrix {
    /// The side the grid was made with.
    pub closed spec fn spec_capacity(&self) -> usize {
        self.size
    }

    /// The grid is square, of the side it was made with, and not empty.
    pub open spec fn wf(&self) -> bool {
        &&& self.spec_capacity() > 0
        &&& is_square(self@, self.spec_capacity() as int)
    }

    /// What `wf` says of the rows as they are stored.
    proof fn lemma_rows(&self)
        requires
            self.wf(),
        ensures
            self.m@.len() == self.size,
            forall|r: int|
                0 <= r < self.size ==> (#[trigger] self.m@[r])@.len() == self.size && self@[r]
                    == self.m@[r]@,
    {
        assert forall|r: int| 0 <= r < self.size implies (#[trigger] self.m@[r])@.len()
            == self.size && self@[r] == self.m@[r]@ by {
            assert(self@[r].len() == self.size);
        }
    }

    /// A grid of side `size` without a live cell.
    pub fn new(size: usize) -> (matrix: Matrix)
        requires
            size > 0,
        ensures
            matrix.wf(),
            matrix.spec_capacity() == size,
            matrix@ == dead_grid(size as int),
    {
        let mut m: Vec<Vec<bool>> = Vec::with_capacity(size);
        let mut ii: usize = 0;
        while ii < size
            invariant
                ii <= size,
                m@.len() == ii,
                forall|r: int| 0 <= r < ii ==> (#[trigger] m@[r])@ == Seq::new(
                    size as nat,
                    |c: int| false,
                ),
            decreases size - ii,
        {
            let mut row: Vec<bool> = Vec::with_capacity(size);
            let mut jj: usize = 0;
            while jj < size
                invariant
                    jj <= size,
                    row@.len() == jj,
                    forall|c: int| 0 <= c < jj ==> !(#[trigger] row@[c]),
                decreases size - jj,
            {
                row.push(false);
                jj = jj + 1;
            }
            assert(row@ =~= Seq::new(size as nat, |c: int| false));
            m.push(row);
            ii = ii + 1;
        }
        let matrix = Matrix { m, size };
        assert(matrix@ =~= dead_grid(size as int));
        matrix
    }

    /// Tells whether the grid is still what it was made as: square, of its
    /// own side. A grid that nobody has resized through its public rows is.
    pub fn well_formed(&self) -> (ok: bool)
        ensures
            ok == self.wf(),
    {
        if self.size == 0 || self.m.len() != self.size {
            return false;
        }
        let mut row_idx: usize = 0;
        while row_idx < self.size
            invariant
                self.m@.len() == self.size,
                row_idx <= self.size,
                forall|r: int| 0 <= r < row_idx ==> (#[trigger] self@[r]).len() == self.size,
            decreases self.size - row_idx,
        {
            if self.m[row_idx].len() != self.size {
                assert(self@[row_idx as int].len() != self.size);
                return false;
            }
            assert(self@[row_idx as int].len() == self.size);
            row_idx = row_idx + 1;
        }
        true
    }

    /// The side of the grid.
    #[verifier::when_used_as_spec(spec_capacity)]
    pub fn capacity(&self) -> (size: usize)
        ensures
            size == self.spec_capacity(),
    {
        self.size
    }

    /// The rows of the grid, to be read: a cell is `true` when it is alive.
    pub fn rows(&self) -> (rows: &Vec<Vec<bool>>)
        ensures
            rows.deep_view() == self@,
    {
        assert(self.m.deep_view() =~~= self@);
        &self.m
    }

    /// The generation that follows this one. Every cell of the new grid is
    /// decided from the old grid alone, which is left as it was.
    pub fn update_matrix(&self) -> (next: Matrix)
        requires
            self.wf(),
        ensures
            next.wf(),
            next.spec_capacity() == self.spec_capacity(),
            next@ == step(self@),
            all_dead(self@) ==> all_dead(next@),
    {
        let size: usize = self.size;
        let mut m: Vec<Vec<bool>> = Vec::with_capacity(size);
        let mut row_idx: usize = 0;
        while row_idx < size
            invariant
                self.wf(),
                size == self.spec_capacity(),
                row_idx <= size,
                m@.len() == row_idx,
                forall|r: int| 0 <= r < row_idx ==> (#[trigger] m@[r])@ == step(self@)[r],
            decreases size - row_idx,
        {
            let mut line: Vec<bool> = Vec::with_capacity(size);
            let mut col_idx: usize = 0;
            while col_idx < size
                invariant
                    self.wf(),
                    size == self.spec_capacity(),
                    row_idx < size,
                    col_idx <= size,
                    line@.len() == col_idx,
                    forall|c: int|
                        0 <= c < col_idx ==> #[trigger] line@[c] == step(self@)[row_idx as int][c],
                decreases size - col_idx,
            {
                proof {
                    self.lemma_rows();
                }
                let num_alive_neighbours: u32 = self.count_alive_neighbours(row_idx, col_idx);
                let alive: bool = self.m[row_idx][col_idx];
                let lives: bool = if alive {
                    num_alive_neighbours == 2 || num_alive_neighbours == 3
                } else {
                    num_alive_neighbours == 3
                };
                assert(lives == lives_on(
                    self@[row_idx as int][col_idx as int],
                    alive_neighbours(self@, row_idx as int, col_idx as int),
                ));
                line.push(lives);
                col_idx = col_idx + 1;
            }
            assert(line@ =~= step(self@)[row_idx as int]);
            m.push(line);
            row_idx = row_idx + 1;
        }
        let next = Matrix { m, size };
        assert(next@ =~= step(self@));
        proof {
            if all_dead(self@) {
                lemma_dead_stays_dead(self@, size as int);
            }
        }
        next
    }

    /// How many of the eight cells around `(row_idx, col_idx)` are alive. The
    /// grid wraps around: the last row lies above the first, the last column
    /// to the left of the first.
    pub fn count_alive_neighbours(&self, row_idx: usize, col_idx: usize) -> (count: u32)
        requires
            self.wf(),
            row_idx < self.spec_capacity(),
            col_idx < self.spec_capacity(),
        ensures
            count == alive_neighbours(self@, row_idx as int, col_idx as int),
            count <= 8,
    {
        let size: usize = self.m.len();
        let start_row: usize = if row_idx > 0 {
            row_idx - 1
        } else {
            size - 1
        };
        let start_col: usize = if col_idx > 0 {
            col_idx - 1
        } else {
            size - 1
        };
        let end_row: usize = (row_idx + 1) % size;
        let end_col: usize = (col_idx + 1) % size;
        let ghost r = row_idx as int;
        let ghost c = col_idx as int;
        proof {
            lemma_before_wraps(r, size as int);
            lemma_before_wraps(c, size as int);
            lemma_small_mod(row_idx as nat, size as nat);
            lemma_small_mod(col_idx as nat, size as nat);
        }
        let above_left: u32 = self.alive(start_row, start_col, Ghost(r - 1), Ghost(c - 1));
        let above: u32 = self.alive(start_row, col_idx, Ghost(r - 1), Ghost(c));
        let above_right: u32 = self.alive(start_row, end_col, Ghost(r - 1), Ghost(c + 1));
        let left: u32 = self.alive(row_idx, start_col, Ghost(r), Ghost(c - 1));
        let right: u32 = self.alive(row_idx, end_col, Ghost(r), Ghost(c + 1));
        let below_left: u32 = self.alive(end_row, start_col, Ghost(r + 1), Ghost(c - 1));
        let below: u32 = self.alive(end_row, col_idx, Ghost(r + 1), Ghost(c));
        let below_right: u32 = self.alive(end_row, end_col, Ghost(r + 1), Ghost(c + 1));
        above_left + above + above_right + left + right + below_left + below + below_right
    }

    /// Loads a pattern from the lines of a file, as its reader gave them: the
    /// text of a line, or `None` for a line that could not be read. Reading
    /// ends at the first such line as if the file had ended there.
    ///
    /// Each character sets the cell at its line and place, alive for `'1'` and
    /// dead for any other. When all of the text has a cell, the pattern is
    /// then centred. At the first character without a cell the loading is
    /// given up with `ArenaTooSmall`; what was written up to there stays.
    ///
    /// A text without a live cell is centred too, as if its live cells
    /// spanned from `(size, size)` to `(0, 0)`: what the grid held before is
    /// moved by `size - size / 2`, down and to the right.
    pub fn parse_file(&mut self, lines: &Vec<Option<String>>) -> (result: Result<(), LoadError>)
        requires
            old(self).wf(),
        ensures
            final(self).wf(),
            final(self).spec_capacity() == old(self).spec_capacity(),
            is_loading(
                old(self)@,
                lines.deep_view(),
                old(self).spec_capacity() as int,
                result,
                final(self)@,
            ),
    {
        let size: usize = self.size;
        let ghost n = size as int;
        let ghost before = self@;
        let ghost all = lines.deep_view();
        let mut start_point = Point { row: size, col: size };
        let mut end_point = Point { row: 0, col: 0 };
        let mut row: usize = 0;
        proof {
            lemma_nothing_read(before, all, size);
        }
        while row < lines.len()
            invariant
                self.wf(),
                size == self.spec_capacity(),
                n == size,
                size == old(self).spec_capacity(),
                before == old(self)@,
                is_square(before, n),
                all == lines.deep_view(),
                row <= lines.len(),
                forall|i: int| 0 <= i < row ==> (#[trigger] all[i]) is Some,
                fits(lines_done(all, row as int), n),
                self@ == overlay(before, lines_done(all, row as int)),
                boxed(lines_done(all, row as int), n, start_point, end_point),
            ensures
                is_first_index(unreadable(all), all.len() as int, row as int),
            decreases lines.len() - row,
        {
            match &lines[row] {
                None => {
                    break ;
                },
                Some(line) => {
                    let mut col: usize = 0;
                    proof {
                        lemma_line_begun(before, all, n, row as int, start_point, end_point);
                    }
                    for character in chars: line.as_str().chars()
                        invariant
                            self.wf(),
                            size == self.spec_capacity(),
                            n == size,
                            size == old(self).spec_capacity(),
                            before == old(self)@,
                            is_square(before, n),
                            all == lines.deep_view(),
                            row < lines.len(),
                            forall|i: int| 0 <= i <= row ==> (#[trigger] all[i]) is Some,
                            chars.seq() == all[row as int]->0,
                            col == chars.index(),
                            row < size ==> col <= size,
                            row >= size ==> col == 0,
                            fits(lines_done(all, row as int), n),
                            self@ == overlay(before, chars_done(all, row as int, col as int)),
                            boxed(
                                chars_done(all, row as int, col as int),
                                n,
                                start_point,
                                end_point,
                            ),
                    {
                        if row < size && col < size {
                            proof {
                                self.lemma_rows();
                                lemma_char_read(
                                    all,
                                    n,
                                    row as int,
                                    col as int,
                                    start_point,
                                    end_point,
                                );
                            }
                            if character == '1' {
                                self.m[row][col] = true;
                                if row < start_point.row {
                                    start_point.row = row;
                                }
                                if col < start_point.col {
                                    start_point.col = col;
                                }
                                if row > end_point.row {
                                    end_point.row = row;
                                }
                                if col > end_point.col {
                                    end_point.col = col;
                                }
                            } else {
                                self.m[row][col] = false;
                            }
                            assert(self@ =~~= overlay(
                                before,
                                chars_done(all, row as int, col as int + 1),
                            ));
                        } else {
                            proof {
                                lemma_given_up(before, all, n, row as int, col as int);
                            }
                            return Err(LoadError::ArenaTooSmall);
                        }
                        col = col + 1;
                    }
                    proof {
                        lemma_line_ended(all, n, row as int, col as int);
                    }
                },
            }
            row = row + 1;
        }
        proof {
            lemma_first_index_is(unreadable(all), all.len() as int, row as int);
            assert(lines_read(all) =~= lines_done(all, row as int));
            lemma_extent_bounds(lines_read(all), n);
        }
        self.center(start_point, end_point);
        Ok(())
    }

    /// The grid as text, a line for each row: `'1'` for a live cell and `'0'`
    /// for a dead one.
    pub fn render(&self) -> (rows: Vec<String>)
        requires
            self.wf(),
        ensures
            rows.deep_view() == drawn(self@),
    {
        let size: usize = self.size;
        let mut rows: Vec<String> = Vec::with_capacity(size);
        let mut row_idx: usize = 0;
        while row_idx < size
            invariant
                self.wf(),
                size == self.spec_capacity(),
                row_idx <= size,
                rows@.len() == row_idx,
                forall|r: int| 0 <= r < row_idx ==> (#[trigger] rows@[r])@ == drawn(self@)[r],
            decreases size - row_idx,
        {
            let mut line: String = String::new();
            let mut col_idx: usize = 0;
            while col_idx < size
                invariant
                    self.wf(),
                    size == self.spec_capacity(),
                    row_idx < size,
                    col_idx <= size,
                    line@.len() == col_idx,
                    forall|c: int|
                        0 <= c < col_idx ==> #[trigger] line@[c] == drawn(self@)[row_idx as int][c],
                decreases size - col_idx,
            {
                proof {
                    self.lemma_rows();
                    reveal_strlit("1");
                    reveal_strlit("0");
                }
                if self.m[row_idx][col_idx] {
                    line.append("1");
                } else {
                    line.append("0");
                }
                col_idx = col_idx + 1;
            }
            assert(line@ =~= drawn(self@)[row_idx as int]);
            rows.push(line);
            row_idx = row_idx + 1;
        }
        assert(rows.deep_view() =~~= drawn(self@));
        rows
    }

    /// Moves the whole grid around the torus so that a pattern whose live
    /// cells span `start` to `end` comes to lie about the middle: every row is
    /// rotated to the right, and the rows are rotated downwards, each by its
    /// coordinate of `centering_shift`.
    pub fn center(&mut self, start: Point, end: Point)
        requires
            old(self).wf(),
        ensures
            final(self).wf(),
            final(self).spec_capacity() == old(self).spec_capacity(),
            final(self)@ == shifted(
                old(self)@,
                centering_shift(start, end, old(self).spec_capacity()).row as int,
                centering_shift(start, end, old(self).spec_capacity()).col as int,
            ),
    {
        let half_length: Point = end.sub(start).shr(1);
        let new_start: Point = half_length.sub_scalar(self.capacity());
        let size: usize = self.size;
        let ghost moved = shifted(self@, new_start.row as int, new_start.col as int);
        let mut m: Vec<Vec<bool>> = Vec::with_capacity(size);
        let mut row_idx: usize = 0;
        while row_idx < size
            invariant
                self.wf(),
                size == self.spec_capacity(),
                moved == shifted(self@, new_start.row as int, new_start.col as int),
                row_idx <= size,
                m@.len() == row_idx,
                forall|r: int| 0 <= r < row_idx ==> (#[trigger] m@[r])@ == moved[r],
            decreases size - row_idx,
        {
            let from_row: usize = index_before(row_idx, new_start.row, size);
            let mut line: Vec<bool> = Vec::with_capacity(size);
            let mut col_idx: usize = 0;
            while col_idx < size
                invariant
                    self.wf(),
                    size == self.spec_capacity(),
                    moved == shifted(self@, new_start.row as int, new_start.col as int),
                    row_idx < size,
                    from_row == (row_idx - new_start.row) % (size as int),
                    from_row < size,
                    col_idx <= size,
                    line@.len() == col_idx,
                    forall|c: int|
                        0 <= c < col_idx ==> #[trigger] line@[c] == moved[row_idx as int][c],
                decreases size - col_idx,
            {
                let from_col: usize = index_before(col_idx, new_start.col, size);
                proof {
                    self.lemma_rows();
                }
                line.push(self.m[from_row][from_col]);
                col_idx = col_idx + 1;
            }
            assert(line@ =~= moved[row_idx as int]);
            m.push(line);
            row_idx = row_idx + 1;
        }
        self.m = m;
        assert(self@ =~= moved);
    }

    /// One if the cell stored at `(row_idx, col_idx)` is alive, zero if it is
    /// dead. It is the cell that `(r, c)` names on the torus.
    fn alive(
        &self,
        row_idx: usize,
        col_idx: usize,
        Ghost(r): Ghost<int>,
        Ghost(c): Ghost<int>,
    ) -> (count: u32)
        requires
            self.wf(),
            row_idx < self.spec_capacity(),
            col_idx < self.spec_capacity(),
            row_idx == r % (self.spec_capacity() as int),
            col_idx == c % (self.spec_capacity() as int),
        ensures
            count == living(cell(self@, r, c)),
            count <= 1,
    {
        proof {
            self.lemma_rows();
        }
        if self.m[row_idx][col_idx] {
            1
        } else {
            0
        }
    }
}

/// The place that lies `k` places before `i` on a ring of `n` places.
fn index_before(i: usize, k: usize, n: usize) -> (j: usize)
    requires
        i < n,
    ensures
        j == (i - k) % (n as int),
        j < n,
{
    let back: usize = k % n;
    proof {
        lemma_sub_mod_noop_right(i as int, k as int, n as int);
    }
    if i >= back {
        proof {
            lemma_small_mod((i - back) as nat, n as nat);
        }
        i - back
    } else {
        proof {
            lemma_mod_add_multiples_vanish(i - back, n as int);
            lemma_small_mod((n + (i - back)) as nat, n as nat);
        }
        i + (n - back)
    }
}

/// The index before `i` on a ring of `n` places: `i - 1`, or the last place
/// when `i` is the first.
proof fn lemma_before_wraps(i: int, n: int)
    requires
        0 <= i < n,
    ensures
        (i - 1) % n == if i > 0 {
            i - 1
        } else {
            n - 1
        },
{
    if i > 0 {
        lemma_small_mod((i - 1) as nat, n as nat);
    } else {
        lemma_mod_add_multiples_vanish(-1, n);
        lemma_small_mod((n - 1) as nat, n as nat);
    }
}

} // verus!
