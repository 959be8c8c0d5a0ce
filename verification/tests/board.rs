use row4::board::Board;
use row4::move_list::MoveList;
use row4::Color;

#[test]
fn board_test_position_mask() {
    assert_eq!(Board::position_mask(3, 1), 2048);
    assert_eq!(Board::position_mask(6, 5), 1 << (8 * 5 + 6));
}

#[test]
fn board_test_height() {
    let board = Board { red: 0, blue: 0, column_heights: [0, 6, 5, 3, 1, 6, 0], color_to_move: Color::Red, moves: MoveList::full(), winner: None };
    assert_eq!(board.height(0), 0);
    assert_eq!(board.height(1), 6);
    assert_eq!(board.height(3), 3);
}

#[test]
fn board_test_moves() {
    let board = Board { red: 0, blue: 0, column_heights: [0, 6, 5, 3, 1, 6, 0], color_to_move: Color::Red, moves: MoveList::full(), winner: None };
    assert_eq!(board.compute_moves(), vec!(3, 2, 4, 0, 6));
}

#[test]
fn board_test_play_move() {
    let mut board = Board::new();
    board.red = 8;
    board.column_heights = [0, 0, 0, 1, 0, 0, 0];

    board.play_move(3, false);
    assert_eq!(board.color_to_move, Color::Blue);

    board.play_move(1, false);
    assert_eq!(board.color_to_move, Color::Red);

    assert_eq!(board.blue, 2);
    assert_eq!(board.red, 2056);
    assert_eq!(board.column_heights, [0, 1, 0, 2, 0, 0, 0]);
}

#[test]
fn board_test_play_moves() {
    let mut board = Board::new();
    board.red = 8;
    board.column_heights = [0, 0, 0, 1, 0, 0, 0];
    board.color_to_move = Color::Blue;

    board.play_moves(&vec!(3, 1));

    assert_eq!(board.color_to_move, Color::Blue);
    assert_eq!(board.blue, 2048);
    assert_eq!(board.red, 10);
    assert_eq!(board.column_heights, [0, 1, 0, 2, 0, 0, 0]);
    assert_eq!(board.winner, None);
}

#[test]
fn test_winner() {
    let mut board = Board::new();
    board.play_moves(&vec!(4, 3, 4, 3, 4, 3, 4));
    assert_eq!(board.winner, Some(Color::Red));

    board.reset();
    board.color_to_move = Color::Blue;
    board.play_moves(&vec!(3, 4, 4, 3, 3, 4, 4, 3, 1, 2, 2));
    assert_eq!(board.winner, Some(Color::Blue));

    board.reset();
    board.color_to_move = Color::Blue;
    board.play_moves(&vec!(3, 4, 4, 3, 3, 4, 4, 3, 1, 1, 2, 2));
    assert_eq!(board.winner, None);
}

#[test]
fn new_board_is_empty_with_red_to_move() {
    let board = Board::new();
    assert_eq!(board.red, 0);
    assert_eq!(board.blue, 0);
    assert_eq!(board.column_heights, [0; 7]);
    assert_eq!(board.color_to_move, Color::Red);
    assert_eq!(board.moves.moves(), vec!(3, 2, 4, 1, 5, 0, 6));
    assert_eq!(board.winner, None);
    assert_eq!(board.compute_winner(), None);
}

#[test]
fn color_switch() {
    assert_eq!(Color::Red.switch(), Color::Blue);
    assert_eq!(Color::Blue.switch(), Color::Red);
}

#[test]
fn red_wins_with_the_fourth_stone_in_column_four() {
    let mut board = Board::new();
    let moves = [4, 3, 4, 3, 4, 3];
    for column in moves {
        board.play_move(column, true);
        assert_eq!(board.winner, None);
    }
    board.play_move(4, true);
    assert_eq!(board.winner, Some(Color::Red));
    assert_eq!(board.red, 1 << 4 | 1 << 12 | 1 << 20 | 1 << 28);
    assert_eq!(board.blue, 1 << 3 | 1 << 11 | 1 << 19);
    assert_eq!(board.column_heights, [0, 0, 0, 3, 4, 0, 0]);
    assert_eq!(board.color_to_move, Color::Blue);
}

#[test]
fn full_board_without_a_line_has_no_winner_and_no_move() {
    let mut board = Board::new();
    board.play_moves(&[
        5, 4, 5, 0, 6, 2, 4, 5, 5, 0, 4, 1, 1, 0, 4, 5, 6, 5, 3, 1, 1, 2, 2, 6, 2, 6, 6, 3, 6, 2,
        0, 3, 0, 3, 3, 4, 3, 1, 4, 2, 1, 0,
    ]);
    assert_eq!(board.column_heights, [6; 7]);
    assert_eq!(board.winner, None);
    assert_eq!(board.moves.len(), 0);
    assert_eq!(board.moves.moves(), Vec::<u8>::new());
    assert_eq!(board.red | board.blue, 0x7f7f_7f7f_7f7f);
    assert_eq!(board.red & board.blue, 0);
    assert_eq!(board.red, 0x5a49_3714_7268);
    assert_eq!(board.blue, 0x2536_486b_0d17);
}

#[test]
fn play_move_leaves_the_moves_alone_unless_asked() {
    let mut board = Board::new();
    board.play_moves(&[0, 0, 0, 0, 0]);
    assert_eq!(board.moves.moves(), vec!(3, 2, 4, 1, 5, 0, 6));
    board.play_move(0, false);
    // column 0 is full now, but the list was not brought up to date
    assert_eq!(board.column_heights[0], 6);
    assert_eq!(board.moves.moves(), vec!(3, 2, 4, 1, 5, 0, 6));
    board.play_move(1, true);
    assert_eq!(board.moves.moves(), vec!(3, 2, 4, 1, 5, 6));
}

#[test]
fn reset_empties_the_board() {
    let mut board = Board::new();
    board.play_moves(&[4, 3, 4, 3, 4, 3, 4]);
    board.reset();
    assert_eq!(board.red, 0);
    assert_eq!(board.blue, 0);
    assert_eq!(board.column_heights, [0; 7]);
    assert_eq!(board.color_to_move, Color::Red);
    assert_eq!(board.moves.moves(), vec!(3, 2, 4, 1, 5, 0, 6));
    assert_eq!(board.winner, None);
}

#[test]
fn blue_wins_along_the_falling_diagonal() {
    let mut board = Board::new();
    // blue takes (3, 0), (2, 1), (1, 2), (0, 3)
    board.color_to_move = Color::Blue;
    board.play_moves(&[3, 2, 2, 1, 6, 1, 1, 0, 0, 0, 0]);
    assert_eq!(board.winner, Some(Color::Blue));
    assert_eq!(board.blue & (1 << 3 | 1 << 10 | 1 << 17 | 1 << 24), 1 << 3 | 1 << 10 | 1 << 17 | 1 << 24);
}

#[test]
fn well_formed_boards_are_told_from_others() {
    let mut board = Board::new();
    assert!(board.is_well_formed());
    board.play_moves(&[3, 3, 2, 4, 0, 0, 0, 0, 0, 0]);
    assert!(board.is_well_formed());
    assert!(board.moves.is_well_formed());

    // heights without stones
    let heights = Board { red: 0, blue: 0, column_heights: [0, 6, 5, 3, 1, 6, 0], color_to_move: Color::Red, moves: MoveList::full(), winner: None };
    assert!(!heights.is_well_formed());
    // a stone that floats
    let mut floating = Board::new();
    floating.red = 1 << 8;
    floating.column_heights[0] = 1;
    assert!(!floating.is_well_formed());
    // a cell with two stones
    let mut shared = Board::new();
    shared.red = 1;
    shared.blue = 1;
    shared.column_heights[0] = 1;
    assert!(!shared.is_well_formed());
    // a stone beside the grid
    let mut beside = Board::new();
    beside.red = 1 << 7;
    assert!(!beside.is_well_formed());
    // a list of moves that is out of date
    let mut stale = Board::new();
    stale.play_moves(&[0, 0, 0, 0, 0]);
    stale.play_move(0, false);
    assert!(!stale.is_well_formed());
    // a winner that the stones do not give
    let mut claimed = Board::new();
    claimed.winner = Some(Color::Blue);
    assert!(!claimed.is_well_formed());
    // a line that nobody has noticed
    let mut unnoticed = Board::new();
    unnoticed.play_moves(&[4, 3, 4, 3, 4, 3, 4]);
    assert!(unnoticed.is_well_formed());
    unnoticed.winner = None;
    assert!(!unnoticed.is_well_formed());
    // a list of moves with a hole
    let mut holed = Board::new();
    holed.moves.moves[2] = None;
    assert!(!holed.moves.is_well_formed());
    assert!(!holed.is_well_formed());
}

#[test]
fn render_draws_the_top_row_first() {
    let mut board = Board::new();
    assert_eq!(
        board.render(),
        ". . . . . . . \n. . . . . . . \n. . . . . . . \n. . . . . . . \n. . . . . . . \n. . . . . . . "
    );
    board.play_moves(&[3, 3, 2, 6]);
    assert_eq!(
        board.render(),
        ". . . . . . . \n. . . . . . . \n. . . . . . . \n. . . . . . . \n. . . o . . . \n. . x x . . o "
    );
}
