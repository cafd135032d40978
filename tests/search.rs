use chomp::game::{Game, MoveError};
use chomp::Board;

#[test]
fn test_winning_move() {
    let mut board = Board::new(3, 3);

    // Chomping at (0, 1) leaves a position where (1, 0) wins.
    board.chomp(0, 1);

    if let Some(winning_move) = board.winning_move() {
        assert_eq!(winning_move, (1, 0));
    } else {
        panic!("Expected a winning move, but none found.");
    }
}

#[test]
fn single_square_board_has_no_winning_move() {
    let board = Board::new(1, 1);
    assert_eq!(board.winning_move(), None);
}

#[test]
fn full_boards_have_first_winning_moves() {
    assert_eq!(Board::new(2, 2).winning_move(), Some((1, 1)));
    assert_eq!(Board::new(3, 3).winning_move(), Some((1, 1)));
    assert_eq!(Board::new(2, 3).winning_move(), Some((1, 2)));
    assert_eq!(Board::new(3, 2).winning_move(), Some((2, 1)));
    assert_eq!(Board::new(1, 4).winning_move(), Some((0, 1)));
    assert_eq!(Board::new(4, 1).winning_move(), Some((1, 0)));
    assert_eq!(Board::new(3, 4).winning_move(), Some((1, 2)));
}

#[test]
fn equal_arms_are_lost() {
    let mut board = Board::new(3, 3);
    board.chomp(1, 1);
    assert_eq!(board.winning_move(), None);
}

#[test]
fn empty_board_has_no_winning_move() {
    let mut board = Board::new(2, 2);
    board.chomp(0, 0);
    assert_eq!(board.winning_move(), None);
    assert_eq!(board.last_occupied(), None);
    assert_eq!(board.computer_move(), None);
}

#[test]
fn asking_twice_gives_the_same_answer() {
    let mut board = Board::new(3, 4);
    board.chomp(2, 2);
    let first = board.winning_move();
    let second = board.winning_move();
    assert_eq!(first, second);
    assert_eq!(board.remaining_count(), 10);
}

#[test]
fn winning_move_leaves_a_lost_position() {
    let mut board = Board::new(3, 4);
    board.chomp(2, 3);
    let (r, c) = board.winning_move().unwrap();
    assert!(board.is_occupied(r, c));
    assert_ne!((r, c), (0, 0));
    board.chomp(r, c);
    assert_eq!(board.winning_move(), None);
}

#[test]
fn lost_position_falls_back_to_last_square() {
    let mut board = Board::new(2, 2);
    board.chomp(1, 1);
    assert_eq!(board.winning_move(), None);
    assert_eq!(board.last_occupied(), Some((1, 0)));
    assert_eq!(board.computer_move(), Some((1, 0)));
}

#[test]
fn computer_move_prefers_a_winning_move() {
    let board = Board::new(3, 3);
    assert_eq!(board.computer_move(), Some((1, 1)));
    assert_eq!(board.last_occupied(), Some((2, 2)));
}

#[test]
fn last_square_is_poison_only_when_alone() {
    let mut board = Board::new(2, 3);
    board.chomp(0, 1);
    board.chomp(1, 0);
    assert_eq!(board.remaining_count(), 1);
    assert_eq!(board.last_occupied(), Some((0, 0)));
    assert_eq!(board.winning_move(), None);
    assert_eq!(board.computer_move(), Some((0, 0)));
}

#[test]
fn game_refuses_bad_moves_and_tracks_the_winner() {
    let mut game = Game::new(Board::new(2, 2));
    assert!(!game.is_over());
    assert_eq!(game.play_person(2, 0), Err(MoveError::OutOfRange));
    assert_eq!(game.play_person(0, 2), Err(MoveError::OutOfRange));
    assert_eq!(game.play_person(1, 1), Ok(()));
    assert_eq!(game.play_person(1, 1), Err(MoveError::AlreadyEaten));
    assert!(game.person_won());
    assert!(!game.is_over());
    assert_eq!(game.play_computer(), Some((1, 0)));
    assert!(!game.person_won());
    assert_eq!(game.play_person(0, 1), Ok(()));
    assert!(game.is_over());
    assert!(game.person_won());
}

#[test]
fn taking_the_poison_square_loses() {
    let mut game = Game::new(Board::new(2, 2));
    assert_eq!(game.play_person(0, 0), Ok(()));
    assert!(game.is_over());
    assert!(!game.person_won());
    assert_eq!(game.board().remaining_count(), 0);
}

#[test]
fn computer_wins_from_the_full_board() {
    let mut game = Game::new(Board::new(3, 3));
    assert_eq!(game.play_person(2, 2), Ok(()));
    assert_eq!(game.play_computer(), Some((1, 1)));
    assert_eq!(game.board().remaining_count(), 5);
    assert!(game.board().winning_move().is_none());
}
