use chomp::Board;

fn occupied_squares(board: &Board) -> Vec<(usize, usize)> {
    let mut squares = Vec::new();
    for i in 0..board.width() {
        for j in 0..board.height() {
            if board.is_occupied(i, j) {
                squares.push((i, j));
            }
        }
    }
    squares
}

#[test]
fn test_new_board() {
    let board = Board::new(3, 3);

    assert_eq!(board.width(), 3);
    assert_eq!(board.height(), 3);
    assert_eq!(board.remaining_count(), 9);
}

#[test]
fn test_chomp() {
    let mut board = Board::new(3, 3);
    board.chomp(1, 1);

    // On a 3x3 board, after chomping (1, 1) there are 5 squares left, the poison square among them.
    assert_eq!(board.remaining_count(), 5);

    // The squares below and to the right of (1, 1) are gone.
    assert!(!board.is_occupied(1, 1));
    assert!(!board.is_occupied(1, 2));
    assert!(!board.is_occupied(2, 1));
    assert!(!board.is_occupied(2, 2));
}

#[test]
fn new_board_is_the_full_grid() {
    let board = Board::new(2, 4);
    assert_eq!(board.remaining_count(), 8);
    let mut expected = Vec::new();
    for i in 0..2 {
        for j in 0..4 {
            expected.push((i, j));
        }
    }
    assert_eq!(occupied_squares(&board), expected);
    assert!(!board.is_occupied(2, 0));
    assert!(!board.is_occupied(0, 4));
}

#[test]
fn zero_area_board_is_empty() {
    let board = Board::new(0, 5);
    assert_eq!(board.width(), 0);
    assert_eq!(board.height(), 5);
    assert_eq!(board.remaining_count(), 0);
    assert!(!board.is_occupied(0, 0));
    let board = Board::new(4, 0);
    assert_eq!(board.remaining_count(), 0);
}

#[test]
fn chomp_leaves_exactly_the_five_squares() {
    let mut board = Board::new(3, 3);
    board.chomp(1, 1);
    assert_eq!(
        occupied_squares(&board),
        vec![(0, 0), (0, 1), (0, 2), (1, 0), (2, 0)]
    );
}

#[test]
fn chomp_of_a_row_zero_square_leaves_column_zero() {
    // A bite at (0, 1) eats every (r, c) with r >= 0 and c >= 1.
    let mut board = Board::new(3, 3);
    board.chomp(0, 1);
    assert_eq!(occupied_squares(&board), vec![(0, 0), (1, 0), (2, 0)]);
    assert_eq!(board.remaining_count(), 3);
}

#[test]
fn chomp_removes_the_dominated_region_only() {
    let mut board = Board::new(4, 3);
    board.chomp(2, 1);
    let before = occupied_squares(&board);
    let count_before = board.remaining_count();
    board.chomp(1, 2);
    let after = occupied_squares(&board);
    let expected: Vec<(usize, usize)> = before
        .iter()
        .copied()
        .filter(|&(r, c)| !(r >= 1 && c >= 2))
        .collect();
    assert_eq!(after, expected);
    assert!(board.remaining_count() < count_before);
    assert_eq!(board.remaining_count(), count_before - 1);
}

#[test]
fn chomp_of_an_eaten_or_outside_square_changes_nothing() {
    let mut board = Board::new(3, 3);
    board.chomp(1, 1);
    board.chomp(2, 2);
    assert_eq!(board.remaining_count(), 5);
    board.chomp(7, 0);
    board.chomp(0, 9);
    assert_eq!(board.remaining_count(), 5);
    assert_eq!(
        occupied_squares(&board),
        vec![(0, 0), (0, 1), (0, 2), (1, 0), (2, 0)]
    );
}

#[test]
fn every_bite_keeps_a_staircase() {
    let mut board = Board::new(5, 4);
    for &(r, c) in &[(3, 1), (1, 3), (2, 2), (4, 0), (0, 2)] {
        board.chomp(r, c);
        for r2 in 0..5 {
            for c2 in 0..4 {
                if board.is_occupied(r2, c2) {
                    for r1 in 0..=r2 {
                        for c1 in 0..=c2 {
                            assert!(board.is_occupied(r1, c1));
                        }
                    }
                }
            }
        }
    }
}

#[test]
fn eating_the_poison_square_empties_the_board() {
    let mut board = Board::new(3, 2);
    board.chomp(0, 0);
    assert_eq!(board.remaining_count(), 0);
    assert!(occupied_squares(&board).is_empty());
}

#[test]
fn duplicate_is_independent() {
    let board = Board::new(3, 3);
    let mut copy = board.duplicate();
    copy.chomp(1, 1);
    assert_eq!(board.remaining_count(), 9);
    assert_eq!(copy.remaining_count(), 5);
    assert_eq!(copy.width(), 3);
    assert_eq!(copy.height(), 3);
    let mut cloned = board.clone();
    cloned.chomp(0, 1);
    assert_eq!(board.remaining_count(), 9);
    assert_eq!(cloned.remaining_count(), 3);
}
