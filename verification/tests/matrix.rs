use life::matrix::Matrix;
use life::pattern::LoadError;

fn text(rows: &[&str]) -> Vec<Option<String>> {
    rows.iter().map(|row| Some(row.to_string())).collect()
}

fn toad() -> Vec<Option<String>> {
    text(&["000000", "001110", "011100", "000000", "000000", "000000"])
}

fn cells(rows: &[&str]) -> Vec<Vec<bool>> {
    rows.iter().map(|row| row.chars().map(|c| c == '1').collect()).collect()
}

#[test]
fn check_init() {
    let arena_size = 5;
    let matrix = Matrix::new(arena_size);
    assert_eq!(matrix.capacity(), 5);
}

#[test]
fn check_parse_file_valid() {
    let input_file = toad();
    let mut matrix = Matrix::new(7);
    matrix.parse_file(&input_file).unwrap();
    let data_correct = vec![
        [false, false, false, false, false, false, false],
        [false, true, true, true, false, false, false],
        [true, true, true, false, false, false, false],
        [false, false, false, false, false, false, false],
        [false, false, false, false, false, false, false],
        [false, false, false, false, false, false, false],
        [false, false, false, false, false, false, false],
    ];
    assert_eq!(data_correct.len(), matrix.m.len());
    for lines in data_correct.iter().zip(matrix.m.iter()) {
        let (correct_line, ut_line) = lines;
        assert_eq!(correct_line.len(), ut_line.len());
        for cols in correct_line.iter().zip(ut_line.iter()) {
            let (correct_col, ut_col) = cols;
            assert_eq!(correct_col, ut_col);
        }
    }
}

#[test]
fn check_parse_file_matrix_too_small() {
    let input_file = toad();
    let mut matrix = Matrix::new(5);
    let res = matrix.parse_file(&input_file);
    assert_eq!(res, Err(LoadError::ArenaTooSmall));
}

#[test]
fn check_alive_neighbours_good() {
    let input_file = toad();
    let mut matrix = Matrix::new(7);
    matrix.parse_file(&input_file).unwrap();
    // Beginning
    assert_eq!(matrix.count_alive_neighbours(0, 0), 1);
    // End
    assert_eq!(matrix.count_alive_neighbours(4, 4), 0);
    // somewhere in the centre
    assert_eq!(matrix.count_alive_neighbours(2, 2), 4);
    // different indexes
    assert_eq!(matrix.count_alive_neighbours(2, 4), 1);
}

#[test]
#[should_panic]
fn check_alive_neighbours_bad() {
    let input_file = toad();
    let mut matrix = Matrix::new(7);
    matrix.parse_file(&input_file).unwrap();
    // too big an index
    assert_eq!(matrix.count_alive_neighbours(7, 9), 1);
}

#[test]
fn check_update_matrix() {
    let input_file = toad();
    let mut matrix = Matrix::new(7);
    matrix.parse_file(&input_file).unwrap();
    let new_m = matrix.update_matrix();
    let data_correct = vec![
        [false, false, true, false, false, false, false],
        [true, false, false, true, false, false, false],
        [true, false, false, true, false, false, false],
        [false, true, false, false, false, false, false],
        [false, false, false, false, false, false, false],
        [false, false, false, false, false, false, false],
        [false, false, false, false, false, false, false],
    ];
    assert_eq!(data_correct.len(), new_m.m.len());
    for lines in data_correct.iter().zip(new_m.m.iter()) {
        let (correct_line, ut_line) = lines;
        assert_eq!(correct_line.len(), ut_line.len());
        for cols in correct_line.iter().zip(ut_line.iter()) {
            let (correct_col, ut_col) = cols;
            assert_eq!(correct_col, ut_col);
        }
    }
}

#[test]
fn new_grid_is_square_and_dead() {
    let matrix = Matrix::new(3);
    assert_eq!(matrix.m, cells(&["000", "000", "000"]));
}

#[test]
fn update_leaves_the_receiver_as_it_was() {
    let mut matrix = Matrix::new(7);
    matrix.parse_file(&toad()).unwrap();
    let before = matrix.m.clone();
    let _ = matrix.update_matrix();
    assert_eq!(matrix.m, before);
}
