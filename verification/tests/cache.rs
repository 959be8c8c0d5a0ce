use row4::board::Board;
use row4::cache::BoardCache;
use row4::score::Score;
use row4::Color;

#[test]
fn test_mirror() {
    assert_eq!(BoardCache::mirror(0), 0);
    assert_eq!(BoardCache::mirror(1), 1 << 6);
    assert_eq!(BoardCache::mirror(1 | 1 << 1 | 1 << 6), 1 | 1 << 5 | 1 << 6);
    assert_eq!(BoardCache::mirror(525324), 528408);
    assert_eq!(BoardCache::mirror(134219792), 134219780);
}

#[test]
fn mirror_is_its_own_inverse_on_the_grid() {
    let masks: [u64; 6] = [0, 1, 525324, 134219792, 0x7f7f_7f7f_7f7f, 0x5a49_3714_7268];
    for mask in masks {
        assert_eq!(BoardCache::mirror(BoardCache::mirror(mask)), mask);
    }
}

#[test]
fn mirror_drops_what_is_no_cell() {
    // bit 7 is the eighth place of the bottom row, which the grid does not have
    assert_eq!(BoardCache::mirror(1 << 7), 0);
    assert_eq!(BoardCache::mirror(1 << 48), 0);
    assert_eq!(BoardCache::mirror(u64::MAX), 0x7f7f_7f7f_7f7f);
}

#[test]
fn mirror_keeps_the_row() {
    for row in 0..6u8 {
        for column in 0..7u8 {
            assert_eq!(
                BoardCache::mirror(Board::position_mask(column, row)),
                Board::position_mask(6 - column, row)
            );
        }
    }
}

#[test]
fn empty_cache_misses() {
    let cache = BoardCache::new();
    assert_eq!(cache.get(&Board::new()), None);
}

fn position(red: u64, blue: u64, color_to_move: Color) -> Board {
    let mut board = Board::new();
    board.red = red;
    board.blue = blue;
    board.color_to_move = color_to_move;
    board
}

#[test]
fn store_then_get_gives_the_value_and_the_derived_ones() {
    let mut board = Board::new();
    board.play_moves(&[3, 0, 4]);
    // blue is to move: its stone is in column 0, red's are in columns 3 and 4
    assert_eq!(board.color_to_move, Color::Blue);
    assert_eq!((board.blue, board.red), (1, 8 | 16));

    let mut cache = BoardCache::new();
    cache.store(&board, Score { ppm: 300_000 });
    assert_eq!(cache.get(&board), Some(&Score { ppm: 300_000 }));

    // the players swapped
    assert_eq!(cache.get(&position(1, 8 | 16, Color::Blue)), Some(&Score { ppm: 700_000 }));
    assert_eq!(cache.get(&position(8 | 16, 1, Color::Red)), Some(&Score { ppm: 700_000 }));
    // the mirror image: column 0 goes to 6, 3 stays, 4 goes to 2
    assert_eq!(cache.get(&position(8 | 4, 64, Color::Blue)), Some(&Score { ppm: 300_000 }));
    // the mirror image with the players swapped
    assert_eq!(cache.get(&position(64, 8 | 4, Color::Blue)), Some(&Score { ppm: 700_000 }));
    // the position itself, written out
    assert_eq!(cache.get(&position(8 | 16, 1, Color::Blue)), Some(&Score { ppm: 300_000 }));
    // anything else is a miss
    assert_eq!(cache.get(&position(8, 1, Color::Blue)), None);
    assert_eq!(cache.get(&Board::new()), None);
}

#[test]
fn store_on_the_empty_board_keeps_the_last_value_written() {
    // both masks are empty, so all four keys are one and the same
    let mut cache = BoardCache::new();
    cache.store(&Board::new(), Score { ppm: 300_000 });
    assert_eq!(cache.get(&Board::new()), Some(&Score { ppm: 700_000 }));
}

#[test]
fn store_on_a_position_that_mirrors_into_its_swap() {
    // red in column 0, blue in column 6: the mirror image is the swapped position
    let board = position(1, 64, Color::Red);
    let mut cache = BoardCache::new();
    cache.store(&board, Score { ppm: 250_000 });
    assert_eq!(cache.get(&board), Some(&Score { ppm: 750_000 }));
    assert_eq!(cache.get(&position(64, 1, Color::Red)), Some(&Score { ppm: 250_000 }));
}

#[test]
fn store_overwrites() {
    let mut board = Board::new();
    board.play_moves(&[3, 0, 4]);
    let mut cache = BoardCache::new();
    cache.store(&board, Score { ppm: 300_000 });
    cache.store(&board, Score { ppm: 1_000_000 });
    assert_eq!(cache.get(&board), Some(&Score { ppm: 1_000_000 }));
    assert_eq!(cache.get(&position(8 | 16, 1, Color::Red)), Some(&Score { ppm: 0 }));
}
