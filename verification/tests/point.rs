use life::point::Point;

#[test]
fn sub_is_the_distance_in_each_coordinate() {
    let a = Point { row: 2, col: 9 };
    let b = Point { row: 7, col: 4 };
    assert_eq!(a.sub(b), Point { row: 5, col: 5 });
    assert_eq!(b.sub(a), Point { row: 5, col: 5 });
    assert_eq!(a.sub(a), Point { row: 0, col: 0 });
}

#[test]
fn sub_does_not_wrap_at_the_ends_of_the_range() {
    let low = Point { row: 0, col: usize::MAX };
    let high = Point { row: usize::MAX, col: 0 };
    assert_eq!(low.sub(high), Point { row: usize::MAX, col: usize::MAX });
}

#[test]
fn sub_scalar_is_the_distance_from_one_number() {
    let p = Point { row: 0, col: 1 };
    assert_eq!(p.sub_scalar(7), Point { row: 7, col: 6 });
    let q = Point { row: 10, col: 7 };
    assert_eq!(q.sub_scalar(7), Point { row: 3, col: 0 });
}

#[test]
fn shr_halves_and_rounds_down() {
    let p = Point { row: 1, col: 3 };
    assert_eq!(p.shr(1), Point { row: 0, col: 1 });
    let q = Point { row: 40, col: 41 };
    assert_eq!(q.shr(0), q);
    assert_eq!(q.shr(1), Point { row: 20, col: 20 });
    assert_eq!(q.shr(3), Point { row: 5, col: 5 });
}

#[test]
fn centring_arithmetic_of_the_toad() {
    let start = Point { row: 1, col: 1 };
    let end = Point { row: 2, col: 4 };
    let half = end.sub(start).shr(1);
    assert_eq!(half, Point { row: 0, col: 1 });
    assert_eq!(half.sub_scalar(7), Point { row: 7, col: 6 });
}
