use sudoku::actions::{user_move, Move};
use sudoku::errors::EditError;
use sudoku::puzzle::digits_from_bytes;
use sudoku::update::Request;

#[test]
fn test_user_move_valid() {
    let c = user_move(1, 1, 5).unwrap();
    assert_eq!(c.row, 0);
    assert_eq!(c.column, 0);
    assert_eq!(c.idx(), 0);
    assert_eq!(c.value(), Some(5));
    assert!(!c.is_clue());

    let c = user_move(9, 9, 0).unwrap();
    assert_eq!(c.idx(), 80);
    assert_eq!(c.value(), None);

    let c = user_move(2, 4, 9).unwrap();
    assert_eq!(c.idx(), 12);
    assert_eq!(c.value(), Some(9));
}

#[test]
fn test_user_move_rejects_bad_input() {
    assert_eq!(user_move(0, 5, 1).unwrap_err(), EditError::InvalidCoordinate);
    assert_eq!(user_move(10, 5, 1).unwrap_err(), EditError::InvalidCoordinate);
    assert_eq!(user_move(5, 0, 1).unwrap_err(), EditError::InvalidCoordinate);
    assert_eq!(user_move(5, 10, 1).unwrap_err(), EditError::InvalidCoordinate);
    assert_eq!(user_move(5, 5, 10).unwrap_err(), EditError::InvalidValue);
    // a bad coordinate is reported before a bad value
    assert_eq!(user_move(0, 0, 10).unwrap_err(), EditError::InvalidCoordinate);
}

#[test]
fn test_digits_from_bytes_reads_81_digits() {
    let mut text = String::new();
    for row in 0..9 {
        for col in 0..9 {
            text.push_str(&format!("{} ", (row + col) % 10));
        }
        text.push('\n');
    }
    let digits = digits_from_bytes(text.as_bytes()).unwrap();
    assert_eq!(digits.len(), 81);
    assert_eq!(digits[0], 0);
    assert_eq!(digits[1], 1);
    assert_eq!(digits[80], 6);
}

#[test]
fn test_digits_from_bytes_ignores_non_digits() {
    let mut text = String::from("| . abc\n");
    for _ in 0..81 {
        text.push_str("7,");
    }
    let digits = digits_from_bytes(text.as_bytes()).unwrap();
    assert_eq!(digits.len(), 81);
    assert!(digits.iter().all(|&d| d == 7));
}

#[test]
fn test_digits_from_bytes_rejects_wrong_count() {
    let short = "123456789".repeat(8);
    assert_eq!(
        digits_from_bytes(short.as_bytes()).unwrap_err(),
        EditError::MalformedInitialGrid
    );
    let long = "123456789".repeat(10);
    assert_eq!(
        digits_from_bytes(long.as_bytes()).unwrap_err(),
        EditError::MalformedInitialGrid
    );
    assert_eq!(digits_from_bytes(b"").unwrap_err(), EditError::MalformedInitialGrid);
}

#[test]
fn test_request_and_response() {
    let r = Request::new(2, 3, 4);
    assert_eq!(r.idx(), 21);
    assert_eq!(r.value(), 4);
    let c = r.cell();
    assert_eq!(c.idx(), 21);
    assert_eq!(c.row, 2);
    assert_eq!(c.column, 3);
    assert_eq!(c.value(), None);

    let r = Request::from_idx(77, 0);
    assert_eq!(r.idx(), 77);
    assert_eq!(r.value(), 0);
}

#[test]
fn test_move_accessors() {
    let m = Move::new(3, 1, 2, 9);
    assert_eq!(m.n, 3);
    assert_eq!(m.idx(), 11);
    assert_eq!(m.value(), 9);
    let c = m.cell();
    assert_eq!(c.idx(), 11);
    assert_eq!(c.row, 1);
    assert_eq!(c.column, 2);
}
