use row4::grid::Board;
use row4::Color;

#[test]
fn row4_test_position_mask() {
    assert_eq!(Board::position_mask(3, 1), 2048);
}

#[test]
fn row4_test_height() {
    let board = Board { red: 0, blue: 0, column_heights: [0, 6, 5, 3, 1, 6, 0] };
    assert_eq!(board.height(0), 0);
    assert_eq!(board.height(1), 6);
    assert_eq!(board.height(3), 3);
}

#[test]
fn row4_test_moves() {
    let board = Board { red: 0, blue: 0, column_heights: [0, 6, 5, 3, 1, 6, 0] };
    assert_eq!(board.moves(), vec!(3, 2, 4, 0, 6));
}

#[test]
fn row4_test_play_move() {
    let mut board = Board { red: 8, blue: 0, column_heights: [0, 0, 0, 1, 0, 0, 0] };
    board.play_move(Color::Red, 3);
    board.play_move(Color::Blue, 1);

    assert_eq!(board.blue, 2);
    assert_eq!(board.red, 2056);
    assert_eq!(board.column_heights, [0, 1, 0, 2, 0, 0, 0]);
}

#[test]
fn row4_test_play_moves() {
    let mut board = Board { red: 8, blue: 0, column_heights: [0, 0, 0, 1, 0, 0, 0] };
    board.play_moves(Color::Blue, vec!(3, 1));

    assert_eq!(board.blue, 2048);
    assert_eq!(board.red, 10);
    assert_eq!(board.column_heights, [0, 1, 0, 2, 0, 0, 0]);
}

#[test]
fn test_has_won() {
    let mut board = Board::new();
    board.play_moves(Color::Red, vec!(4, 3, 4, 3, 4, 3, 4));
    assert_eq!(board.has_won(), Some(Color::Red));

    board.reset();
    board.play_moves(Color::Blue, vec!(3, 4, 4, 3, 3, 4, 4, 3, 1, 2, 2));
    assert_eq!(board.has_won(), Some(Color::Blue));

    board.reset();
    board.play_moves(Color::Blue, vec!(3, 4, 4, 3, 3, 4, 4, 3, 1, 1, 2, 2));
    assert_eq!(board.has_won(), None);
}

#[test]
fn switch_color_gives_the_other_player() {
    assert_eq!(Board::switch_color(Color::Red), Color::Blue);
    assert_eq!(Board::switch_color(Color::Blue), Color::Red);
}

#[test]
fn new_grid_is_empty() {
    let board = Board::new();
    assert_eq!(board.red, 0);
    assert_eq!(board.blue, 0);
    assert_eq!(board.column_heights, [0; 7]);
    assert_eq!(board.moves(), vec!(3, 2, 4, 1, 5, 0, 6));
    assert_eq!(board.has_won(), None);
}

#[test]
fn win_masks_are_the_table() {
    let masks = Board::compute_win_masks();
    assert_eq!(masks.len(), 69);
    assert_eq!(masks, row4::lines::WIN_MASKS.to_vec());
    // the first column, from the bottom
    assert_eq!(masks[0], 0x0101_0101);
    // the bottom row, from the left
    assert_eq!(masks[21], 0x0f);
    // the first rising and the first falling diagonal
    assert_eq!(masks[45], 0x0804_0201);
    assert_eq!(masks[46], 0x0102_0408);
    for mask in masks {
        assert_eq!(mask.count_ones(), 4);
        assert_eq!(mask & !0x7f7f_7f7f_7f7f, 0);
    }
}

#[test]
fn grid_win_along_a_row_and_a_diagonal() {
    let mut board = Board::new();
    // red: columns 0 to 3 of the bottom row; blue on top of the first three
    board.play_moves(Color::Red, vec!(0, 0, 1, 1, 2, 2, 3));
    assert_eq!(board.has_won(), Some(Color::Red));

    board.reset();
    // red climbs the rising diagonal from (0, 0) to (3, 3)
    board.play_moves(Color::Red, vec!(0, 1, 1, 2, 2, 3, 2, 3, 3, 6, 3));
    assert_eq!(board.has_won(), Some(Color::Red));
}

#[test]
fn well_formed_grids_are_told_from_others() {
    let mut board = Board::new();
    assert!(board.is_well_formed());
    board.play_moves(Color::Red, vec!(4, 3, 4, 3, 4, 3, 4));
    assert!(board.is_well_formed());
    assert!(!Board { red: 0, blue: 0, column_heights: [0, 6, 5, 3, 1, 6, 0] }.is_well_formed());
    assert!(!Board { red: 8, blue: 0, column_heights: [0; 7] }.is_well_formed());
    assert!(Board { red: 8, blue: 0, column_heights: [0, 0, 0, 1, 0, 0, 0] }.is_well_formed());
    assert!(!Board { red: 8, blue: 8, column_heights: [0, 0, 0, 1, 0, 0, 0] }.is_well_formed());
    assert!(!Board { red: 0, blue: 0, column_heights: [7, 0, 0, 0, 0, 0, 0] }.is_well_formed());
}

#[test]
fn grid_render_draws_the_top_row_first() {
    let mut board = Board::new();
    board.play_moves(Color::Blue, vec!(0, 0, 0, 0, 0, 0));
    assert_eq!(
        board.render(),
        "x . . . . . . \no . . . . . . \nx . . . . . . \no . . . . . . \nx . . . . . . \no . . . . . . "
    );
}
