use sudoku::cell::Cell;
use sudoku::errors::EditError;
use sudoku::puzzle::Puzzle;
use sudoku::update::Request;

fn zeros() -> Vec<u8> {
    vec![0u8; 81]
}

fn snapshot(p: &Puzzle) -> Vec<(Option<u8>, bool, u8)> {
    p.grid().iter().map(|c| (c.value(), c.is_clue(), c.conflicts())).collect()
}

/// Recomputes a cell's conflict count from scratch, against the stored one.
fn brute_force_conflicts(p: &Puzzle, i: usize) -> u8 {
    let cells = p.grid();
    match cells[i].value() {
        None => 0,
        Some(v) => {
            let mut n = 0u8;
            for &q in Cell::from_grid_idx(i).peers().iter() {
                if cells[q].value() == Some(v) {
                    n += 1;
                }
            }
            n
        }
    }
}

fn check_conflict_invariant(p: &Puzzle) {
    let cells = p.grid();
    for i in 0..81usize {
        assert_eq!(
            cells[i].conflicts(),
            brute_force_conflicts(p, i),
            "conflict counter of cell {} must match its neighborhood",
            i
        );
        if cells[i].value().is_none() {
            assert_eq!(cells[i].conflicts(), 0);
        }
    }
}

#[test]
fn test_example_scenario() {
    let mut p = Puzzle::new(&zeros());
    let r = p.update_cell(&Request::from_idx(0, 5)).unwrap();
    assert_eq!(r.idx, 0);
    assert_eq!(r.prev_value, 0);
    assert_eq!(r.new_value, 5);
    assert_eq!(p.grid()[0].value(), Some(5));
    assert_eq!(p.grid()[0].conflicts(), 0);

    let r2 = p.update_cell(&Request::from_idx(1, 5)).unwrap();
    assert_eq!(r2.prev_value, 0);
    assert_eq!(r2.new_value, 5);
    assert_eq!(p.grid()[1].conflicts(), 1);
    assert_eq!(p.grid()[0].conflicts(), 1);

    let undo = p.update_cell(&r2.undo_request()).unwrap();
    assert_eq!(undo.prev_value, 5);
    assert_eq!(undo.new_value, 0);
    assert_eq!(p.grid()[1].value(), None);
    assert_eq!(p.grid()[1].conflicts(), 0);
    assert_eq!(p.grid()[0].conflicts(), 0);
}

#[test]
fn test_clue_is_immutable() {
    let mut digits = zeros();
    digits[0] = 7;
    let mut p = Puzzle::new(&digits);
    assert!(p.grid()[0].is_clue());
    let before = snapshot(&p);
    assert_eq!(p.update_cell(&Request::from_idx(0, 5)).unwrap_err(), EditError::ImmutableClue);
    assert_eq!(p.update_cell(&Request::from_idx(0, 7)).unwrap_err(), EditError::ImmutableClue);
    assert_eq!(p.update_cell(&Request::from_idx(0, 0)).unwrap_err(), EditError::ImmutableClue);
    // the clue wins even over an out-of-range value
    assert_eq!(p.update_cell(&Request::from_idx(0, 12)).unwrap_err(), EditError::ImmutableClue);
    assert_eq!(snapshot(&p), before);
}

#[test]
fn test_out_of_range_and_invalid_value() {
    let mut p = Puzzle::new(&zeros());
    let before = snapshot(&p);
    assert_eq!(p.update_cell(&Request::from_idx(81, 1)).unwrap_err(), EditError::OutOfRange);
    assert_eq!(p.update_cell(&Request::from_idx(10_000, 0)).unwrap_err(), EditError::OutOfRange);
    assert_eq!(p.update_cell(&Request::from_idx(3, 10)).unwrap_err(), EditError::InvalidValue);
    assert_eq!(p.update_cell(&Request::from_idx(3, 255)).unwrap_err(), EditError::InvalidValue);
    assert_eq!(snapshot(&p), before);
}

#[test]
fn test_noop_idempotence() {
    let mut p = Puzzle::new(&zeros());
    p.update_cell(&Request::from_idx(10, 3)).unwrap();
    let after_first = snapshot(&p);
    let r = p.update_cell(&Request::from_idx(10, 3)).unwrap();
    assert_eq!(r.prev_value, r.new_value);
    assert_eq!(r.prev_value, 3);
    assert_eq!(snapshot(&p), after_first);
    // clearing a blank cell is a no-op too
    let r2 = p.update_cell(&Request::from_idx(11, 0)).unwrap();
    assert_eq!(r2.prev_value, 0);
    assert_eq!(r2.new_value, 0);
    assert_eq!(snapshot(&p), after_first);
}

#[test]
fn test_undo_round_trip() {
    let mut digits = zeros();
    digits[2] = 5;
    digits[30] = 9;
    let mut p = Puzzle::new(&digits);
    p.update_cell(&Request::from_idx(4, 5)).unwrap();
    p.update_cell(&Request::from_idx(10, 9)).unwrap();
    let before = snapshot(&p);
    // overwrite one user value, then clear another, undoing each in turn
    let r = p.update_cell(&Request::from_idx(4, 1)).unwrap();
    let undo = p.update_cell(&r.undo_request()).unwrap();
    assert_eq!(undo.new_value, 5);
    assert_eq!(snapshot(&p), before);
    let r2 = p.update_cell(&Request::from_idx(10, 0)).unwrap();
    p.update_cell(&r2.undo_request()).unwrap();
    assert_eq!(snapshot(&p), before);
}

#[test]
fn test_conflict_invariant_after_sequence() {
    let mut digits = zeros();
    digits[0] = 5;
    digits[40] = 3;
    let mut p = Puzzle::new(&digits);
    let moves: Vec<(usize, u8)> = vec![
        (1, 5),
        (9, 5),
        (20, 5),
        (41, 3),
        (41, 0),
        (41, 5),
        (80, 3),
        (1, 0),
        (44, 3),
        (9, 4),
    ];
    for &(idx, v) in moves.iter() {
        p.update_cell(&Request::from_idx(idx, v)).unwrap();
        check_conflict_invariant(&p);
    }
}

#[test]
fn test_peer_update_decrements() {
    let mut p = Puzzle::new(&zeros());
    p.update_cell(&Request::from_idx(0, 5)).unwrap();
    p.update_cell(&Request::from_idx(1, 5)).unwrap();
    assert_eq!(p.grid()[0].conflicts(), 1);
    assert!(p.grid()[0].has_conflicts());
    // moving cell 1 to a different value releases cell 0's conflict
    p.update_cell(&Request::from_idx(1, 6)).unwrap();
    assert_eq!(p.grid()[0].conflicts(), 0);
    assert_eq!(p.grid()[1].conflicts(), 0);
    assert!(!p.grid()[0].has_conflicts());
}

#[test]
fn test_completion_independent_of_conflicts() {
    let mut p = Puzzle::new(&zeros());
    assert!(!p.is_completed());
    for i in 0..81usize {
        assert!(!p.is_completed());
        // every cell gets the same value: conflicts never block completion
        p.update_cell(&Request::from_idx(i, 1)).unwrap();
    }
    assert!(p.is_completed());
    assert!(p.grid()[0].has_conflicts());
    p.update_cell(&Request::from_idx(40, 0)).unwrap();
    assert!(!p.is_completed());
}

#[test]
fn test_initial_conflicts_of_clues() {
    let mut digits = zeros();
    digits[0] = 5;
    digits[8] = 5;
    let p = Puzzle::new(&digits);
    assert_eq!(p.grid()[0].conflicts(), 1);
    assert_eq!(p.grid()[8].conflicts(), 1);
    assert_eq!(p.grid()[1].conflicts(), 0);
    check_conflict_invariant(&p);
}
