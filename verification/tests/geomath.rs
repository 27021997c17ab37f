use tictactoe::error::MoveError;
use tictactoe::geomath::{Point, SIZE};

#[test]
fn size_is_three() {
    assert_eq!(SIZE, 3);
}

#[test]
fn new_keeps_column_and_row() {
    let p = Point::new(2, 1);
    assert_eq!(p.x, 2);
    assert_eq!(p.y, 1);
}

#[test]
fn try_from_counts_row_by_row_from_zero() {
    assert_eq!(Point::try_from(0), Ok(Point::new(0, 0)));
    assert_eq!(Point::try_from(2), Ok(Point::new(2, 0)));
    assert_eq!(Point::try_from(3), Ok(Point::new(0, 1)));
    assert_eq!(Point::try_from(5), Ok(Point::new(2, 1)));
    assert_eq!(Point::try_from(8), Ok(Point::new(2, 2)));
}

#[test]
fn try_from_turns_down_what_is_off_the_board() {
    assert_eq!(Point::try_from(9), Err(MoveError::InvalidIndex));
    assert_eq!(Point::try_from(10), Err(MoveError::InvalidIndex));
    assert_eq!(Point::try_from(usize::MAX), Err(MoveError::InvalidIndex));
}

#[test]
fn linear_index_counts_from_one() {
    assert_eq!(Point::new(0, 0).linear_index(), 1);
    assert_eq!(Point::new(1, 0).linear_index(), 2);
    assert_eq!(Point::new(0, 1).linear_index(), 4);
    assert_eq!(Point::new(1, 1).linear_index(), 5);
    assert_eq!(Point::new(2, 2).linear_index(), 9);
}

#[test]
fn from_linear_index_gives_row_and_column() {
    assert_eq!(Point::from_linear_index(1), Ok(Point::new(0, 0)));
    assert_eq!(Point::from_linear_index(6), Ok(Point::new(2, 1)));
    assert_eq!(Point::from_linear_index(7), Ok(Point::new(0, 2)));
}

#[test]
fn linear_index_round_trip() {
    for index in 1..=9usize {
        let p = Point::from_linear_index(index).unwrap();
        assert!(p.x < 3 && p.y < 3);
        assert_eq!(p.y, (index - 1) / 3);
        assert_eq!(p.x, (index - 1) % 3);
        assert_eq!(p.linear_index(), index);
    }
    for y in 0..3 {
        for x in 0..3 {
            let p = Point::new(x, y);
            assert_eq!(Point::from_linear_index(p.linear_index()), Ok(p));
        }
    }
}

#[test]
fn from_linear_index_turns_down_the_rest() {
    assert_eq!(Point::from_linear_index(0), Err(MoveError::InvalidIndex));
    assert_eq!(Point::from_linear_index(10), Err(MoveError::InvalidIndex));
    assert_eq!(Point::from_linear_index(11), Err(MoveError::InvalidIndex));
    assert_eq!(
        Point::from_linear_index(usize::MAX),
        Err(MoveError::InvalidIndex)
    );
}
