use life::matrix::Matrix;
use life::pattern::LoadError;

fn lines(rows: &[&str]) -> Vec<Option<String>> {
    rows.iter().map(|row| Some(row.to_string())).collect()
}

fn grid(rows: &[&str]) -> Vec<Vec<bool>> {
    rows.iter().map(|row| row.chars().map(|c| c == '1').collect()).collect()
}

fn live_cells(matrix: &Matrix) -> usize {
    matrix.m.iter().map(|row| row.iter().filter(|cell| **cell).count()).sum()
}

#[test]
fn only_the_character_one_is_alive() {
    let mut matrix = Matrix::new(3);
    assert_eq!(matrix.parse_file(&lines(&["x1 ", "2-1"])), Ok(()));
    // the box spans rows 0..=1 and columns 1..=2: half of it is (0, 0), and
    // a shift by the whole side moves nothing
    assert_eq!(matrix.m, grid(&["010", "001", "000"]));
}

#[test]
fn the_pattern_is_moved_by_the_side_less_half_its_extent() {
    let mut matrix = Matrix::new(5);
    assert_eq!(matrix.parse_file(&lines(&["10001", "00000", "00000", "00000", "10001"])), Ok(()));
    // the box spans 0..=4 both ways: half of it is (2, 2), the shift (3, 3)
    assert_eq!(matrix.m, grid(&["00000", "00000", "00110", "00110", "00000"]));
}

#[test]
fn cells_that_the_text_does_not_reach_stay_as_they_were() {
    let mut matrix = Matrix::new(3);
    matrix.m[0][2] = true;
    matrix.m[0][0] = true;
    assert_eq!(matrix.parse_file(&lines(&["0"])), Ok(()));
    // (0, 0) was written dead and (0, 2) kept; without a live cell in the
    // text the box is (3, 3)..(0, 0), half of it (1, 1), the shift (2, 2)
    assert_eq!(matrix.m, grid(&["000", "000", "010"]));
}

#[test]
fn an_empty_pattern_still_moves_the_grid() {
    let mut matrix = Matrix::new(7);
    matrix.m[0][0] = true;
    matrix.m[6][1] = true;
    assert_eq!(matrix.parse_file(&Vec::new()), Ok(()));
    // the shift is 7 - (7 >> 1) = 4 both ways
    let mut expected = Matrix::new(7).m;
    expected[4][4] = true;
    expected[3][5] = true;
    assert_eq!(matrix.m, expected);
}

#[test]
fn an_empty_pattern_leaves_a_dead_grid_dead() {
    let mut matrix = Matrix::new(4);
    assert_eq!(matrix.parse_file(&Vec::new()), Ok(()));
    assert_eq!(matrix.m, grid(&["0000", "0000", "0000", "0000"]));
}

#[test]
fn a_line_that_cannot_be_read_ends_the_file() {
    let mut matrix = Matrix::new(3);
    let input = vec![Some("010".to_string()), None, Some("1111111".to_string())];
    assert_eq!(matrix.parse_file(&input), Ok(()));
    assert_eq!(matrix.m, grid(&["010", "000", "000"]));
}

#[test]
fn a_file_whose_first_line_cannot_be_read_is_empty() {
    let mut matrix = Matrix::new(2);
    matrix.m[0][0] = true;
    let input = vec![None, Some("111".to_string())];
    assert_eq!(matrix.parse_file(&input), Ok(()));
    // shift 2 - (2 >> 1) = 1 both ways
    assert_eq!(matrix.m, grid(&["00", "01"]));
}

#[test]
fn a_character_beyond_the_last_column_is_refused() {
    let mut matrix = Matrix::new(3);
    assert_eq!(matrix.parse_file(&lines(&["1", "0101", "111"])), Err(LoadError::ArenaTooSmall));
    // what was written before the character without a cell stays, unmoved;
    // the lines after it were not looked at
    assert_eq!(matrix.m, grid(&["100", "010", "000"]));
}

#[test]
fn a_dead_character_beyond_the_last_column_is_refused_too() {
    let mut matrix = Matrix::new(2);
    assert_eq!(matrix.parse_file(&lines(&["110"])), Err(LoadError::ArenaTooSmall));
    assert_eq!(matrix.m, grid(&["11", "00"]));
}

#[test]
fn a_character_beyond_the_last_row_is_refused() {
    let mut matrix = Matrix::new(2);
    assert_eq!(matrix.parse_file(&lines(&["01", "10", "0"])), Err(LoadError::ArenaTooSmall));
    assert_eq!(matrix.m, grid(&["01", "10"]));
}

#[test]
fn empty_lines_beyond_the_last_row_are_no_fault() {
    let mut matrix = Matrix::new(2);
    assert_eq!(matrix.parse_file(&lines(&["10", "00", "", ""])), Ok(()));
    assert_eq!(matrix.m, grid(&["10", "00"]));
}

#[test]
fn a_pattern_as_wide_as_the_arena_fits() {
    let mut matrix = Matrix::new(3);
    assert_eq!(matrix.parse_file(&lines(&["111", "101", "111"])), Ok(()));
    // half of the box is (1, 1), the shift (2, 2)
    assert_eq!(matrix.m, grid(&["011", "111", "111"]));
}

#[test]
fn characters_are_counted_not_bytes() {
    let mut matrix = Matrix::new(3);
    assert_eq!(matrix.parse_file(&lines(&["\u{e9}\u{4e16}1"])), Ok(()));
    assert_eq!(matrix.m, grid(&["001", "000", "000"]));
}

#[test]
fn loading_the_same_file_twice_gives_the_same_grid() {
    let input = lines(&["000000", "001110", "011100", "000000", "000000", "000000"]);
    let mut first = Matrix::new(7);
    let mut second = Matrix::new(7);
    assert_eq!(first.parse_file(&input), second.parse_file(&input));
    assert_eq!(first, second);
    assert_eq!(first.m, second.m);
}

#[test]
fn failing_twice_leaves_the_same_grid_too() {
    let input = lines(&["000000", "001110", "011100"]);
    let mut first = Matrix::new(5);
    let mut second = Matrix::new(5);
    assert_eq!(first.parse_file(&input), Err(LoadError::ArenaTooSmall));
    assert_eq!(second.parse_file(&input), Err(LoadError::ArenaTooSmall));
    assert_eq!(first.m, second.m);
}

#[test]
fn nothing_lives_outside_the_pattern() {
    let input = lines(&["000000", "001110", "011100", "000000", "000000", "000000"]);
    let mut matrix = Matrix::new(7);
    assert_eq!(matrix.parse_file(&input), Ok(()));
    assert_eq!(live_cells(&matrix), 6);
    let mut wide = Matrix::new(40);
    assert_eq!(wide.parse_file(&input), Ok(()));
    assert_eq!(live_cells(&wide), 6);
    // the shift is (40, 39): each live cell lies one column to the left
    for (row, col) in [(1, 1), (1, 2), (1, 3), (2, 0), (2, 1), (2, 2)] {
        assert!(wide.m[row][col]);
    }
}

#[test]
fn loading_keeps_the_side() {
    let mut matrix = Matrix::new(4);
    matrix.parse_file(&lines(&["1"])).unwrap();
    assert_eq!(matrix.capacity(), 4);
    assert!(matrix.well_formed());
    assert_eq!(matrix.parse_file(&lines(&["11111"])), Err(LoadError::ArenaTooSmall));
    assert_eq!(matrix.capacity(), 4);
    assert!(matrix.well_formed());
}

#[test]
fn the_error_in_words() {
    assert_eq!(LoadError::ArenaTooSmall.message(), "arena too small");
}
