use sudoku::index::{index_to_xy, xy_to_index};
use sudoku::{is_legal_index, is_legal_number};

#[test]
fn index_to_xy_test() {
    assert_eq!(index_to_xy(1, 1), (0, 1));
    assert_eq!(index_to_xy(2, 1), (0, 2));
    assert_eq!(index_to_xy(2, 9), (2, 0));
    assert_eq!(index_to_xy(3, 9), (3, 0));
    assert_eq!(index_to_xy(9, 9), (0, 1));
    assert_eq!(index_to_xy(10, 9), (1, 1));
}

#[test]
fn xy_to_index_test() {
    assert_eq!(xy_to_index(0, 0, 1), 0);
    assert_eq!(xy_to_index(0, 1, 1), 1);
    assert_eq!(xy_to_index(1, 0, 1), 1);
    assert_eq!(xy_to_index(1, 1, 1), 2);
    assert_eq!(xy_to_index(0, 0, 9), 0);
    assert_eq!(xy_to_index(1, 0, 9), 1);
    assert_eq!(xy_to_index(0, 1, 9), 9);
    assert_eq!(xy_to_index(2, 2, 9), 20);
}

#[test]
fn index_round_trip() {
    for index in 0..81 {
        let (x, y) = index_to_xy(index, 9);
        assert!(x < 9 && y < 9);
        assert_eq!(xy_to_index(x, y, 9), index);
    }
}

#[test]
fn legal_number_test() {
    assert!(!is_legal_number(0));
    assert!(is_legal_number(1));
    assert!(is_legal_number(2));
    assert!(is_legal_number(3));
    assert!(is_legal_number(4));
    assert!(is_legal_number(5));
    assert!(is_legal_number(6));
    assert!(is_legal_number(7));
    assert!(is_legal_number(8));
    assert!(is_legal_number(9));
    assert!(!is_legal_number(10));
    assert!(!is_legal_number(11));
}

#[test]
fn legal_index_test() {
    assert!(is_legal_index(0));
    assert!(is_legal_index(1));
    assert!(is_legal_index(2));
    assert!(is_legal_index(3));
    assert!(is_legal_index(4));
    assert!(is_legal_index(5));
    assert!(is_legal_index(6));
    assert!(is_legal_index(7));
    assert!(is_legal_index(8));
    assert!(is_legal_index(9));
    assert!(is_legal_index(78));
    assert!(is_legal_index(79));
    assert!(is_legal_index(80));
    assert!(!is_legal_index(81));
    assert!(!is_legal_index(82));
}
