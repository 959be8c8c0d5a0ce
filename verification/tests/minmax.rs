use row4::board::Board;
use row4::cache::BoardCache;
use row4::minmax::{
    goes_on, iterative_minmax, minmax, put_main_variant_first, GAMES_PER_EVALUATION,
};
use row4::monte_carlo::{evaluate, useful_moves};
use row4::score::Score;
use row4::Color;

#[test]
fn test_put_main_variant_first_for_empty_main_variant() {
    let mut moves = vec!(3, 4, 2, 1);
    assert_eq!(put_main_variant_first(&mut moves, &[]), vec!());
    assert_eq!(moves, vec!(3, 4, 2, 1));
}

#[test]
fn test_put_main_variant_first_for_single_element_main_variant() {
    let mut moves = vec!(3, 4, 2, 1);
    assert_eq!(put_main_variant_first(&mut moves, &[2]), vec!());
    assert_eq!(moves, vec!(2, 3, 4, 1));
}

#[test]
fn test_put_main_variant_first_for_overlapping_main_variant() {
    let mut moves = vec!(3, 4, 2, 1);
    assert_eq!(put_main_variant_first(&mut moves, &[1, 3, 3, 2, 1]), vec!(1, 3, 3, 2));
    assert_eq!(moves, vec!(1, 3, 4, 2));
}

#[test]
fn test_put_main_variant_first_for_disjunct_main_variant() { // should never really happen
    let mut moves = vec!(3, 4, 2, 1);
    assert_eq!(put_main_variant_first(&mut moves, &[1, 3, 3, 2, 1, 5]), vec!(1, 3, 3, 2, 1));
    assert_eq!(moves, vec!(5, 3, 4, 2, 1));
}

const FULL: [u8; 42] = [
    5, 4, 5, 0, 6, 2, 4, 5, 5, 0, 4, 1, 1, 0, 4, 5, 6, 5, 3, 1, 1, 2, 2, 6, 2, 6, 6, 3, 6, 2, 0, 3,
    0, 3, 3, 4, 3, 1, 4, 2, 1, 0,
];

/// A value that depends on the stones alone, is the same for the mirror image
/// and turns into what is left of the whole when the players are swapped.
fn weigh(board: &Board, own: Color, _games: u32) -> (Score, u64) {
    let weights: [i64; 7] = [1, 2, 3, 4, 3, 2, 1];
    let mut sum: i64 = 0;
    for row in 0..6u8 {
        for column in 0..7u8 {
            let mask = Board::position_mask(column, row);
            let weight = weights[column as usize] * (row as i64 + 1);
            if board.red & mask != 0 {
                sum += weight;
            }
            if board.blue & mask != 0 {
                sum -= weight;
            }
        }
    }
    if own == Color::Blue {
        sum = -sum;
    }
    (Score { ppm: 500_000 + 100 * sum }, 1)
}

/// Plain minimax over the moves worth trying: every move is looked at.
fn plain(board: &Board, own: Color, depth: u8) -> (Option<u8>, i64) {
    match board.winner {
        Some(color) => return (None, if color == own { 1_000_000 } else { 0 }),
        None => {
            if board.moves.len() == 0 {
                return (None, 500_000);
            }
        }
    }
    if depth == 0 {
        return (None, weigh(board, own, 0).0.ppm);
    }
    let maximize = board.color_to_move == own;
    let mut best: Option<(u8, i64)> = None;
    for column in useful_moves(board) {
        let mut sim = board.clone();
        sim.play_move(column, true);
        let (_, value) = plain(&sim, own, depth - 1);
        let better = match best {
            None => true,
            Some((_, so_far)) => if maximize { value > so_far } else { value < so_far },
        };
        if better {
            best = Some((column, value));
        }
    }
    let (column, value) = best.unwrap();
    (Some(column), value)
}

#[test]
fn alpha_beta_agrees_with_plain_minimax() {
    let starts: [&[u8]; 6] = [
        &[],
        &[3],
        &[3, 3, 2],
        &[0, 6, 1, 5],
        &[3, 2, 3, 2, 4],
        &[3, 3, 3, 3, 3, 3, 2, 4, 2, 4, 1],
    ];
    for start in starts {
        for depth in 1..=4u8 {
            for own in [Color::Red, Color::Blue] {
                let mut board = Board::new();
                board.play_moves(start);
                let mut cache = BoardCache::new();
                let (variant, eval, _, positions) = minmax(
                    &board,
                    own,
                    depth,
                    &[],
                    Score::lowest(),
                    Score::highest(),
                    &mut cache,
                    &weigh,
                );
                let (column, value) = plain(&board, own, depth);
                assert_eq!(eval.ppm, value);
                assert_eq!(variant.last().copied(), column);
                assert!(variant.len() <= depth as usize);
                assert!(positions >= 1);
            }
        }
    }
}

#[test]
fn minmax_on_a_decided_position() {
    let mut cache = BoardCache::new();
    let mut board = Board::new();
    board.play_moves(&vec!(4, 3, 4, 3, 4, 3, 4));
    assert_eq!(
        minmax(&board, Color::Red, 3, &[], Score::lowest(), Score::highest(), &mut cache, &weigh),
        (vec!(), Score { ppm: 1_000_000 }, 0, 1)
    );
    assert_eq!(
        minmax(&board, Color::Blue, 3, &[], Score::lowest(), Score::highest(), &mut cache, &weigh),
        (vec!(), Score { ppm: 0 }, 0, 1)
    );
    let mut full = Board::new();
    full.play_moves(&FULL);
    assert_eq!(
        minmax(&full, Color::Red, 3, &[], Score::lowest(), Score::highest(), &mut cache, &weigh),
        (vec!(), Score { ppm: 500_000 }, 0, 1)
    );
    assert_eq!(cache.get(&board), None);
    assert_eq!(cache.get(&full), None);
}

#[test]
fn minmax_at_depth_zero_asks_the_cache_first() {
    let mut board = Board::new();
    board.play_moves(&vec!(3, 2));
    let mut cache = BoardCache::new();
    // a miss: the position is valued, and the value is stored
    let expected = weigh(&board, Color::Red, GAMES_PER_EVALUATION).0;
    assert_eq!(expected, Score { ppm: 500_100 });
    assert_eq!(
        minmax(&board, Color::Red, 0, &[], Score::lowest(), Score::highest(), &mut cache, &weigh),
        (vec!(), expected, 1, 1)
    );
    assert_eq!(cache.get(&board), Some(&expected));
    // a hit: the stored value comes back and nothing is played
    let mut other = BoardCache::new();
    other.store(&board, Score { ppm: 123_456 });
    assert_eq!(
        minmax(&board, Color::Red, 0, &[], Score::lowest(), Score::highest(), &mut other, &weigh),
        (vec!(), Score { ppm: 123_456 }, 0, 1)
    );
}

#[test]
fn minmax_finds_the_win_in_one() {
    let mut board = Board::new();
    board.play_moves(&vec!(4, 3, 4, 3, 4, 3));
    let mut cache = BoardCache::new();
    assert_eq!(
        minmax(&board, Color::Red, 1, &[], Score::lowest(), Score::highest(), &mut cache, &weigh),
        (vec!(4), Score { ppm: 1_000_000 }, 0, 1)
    );
    // one move earlier blue has to block, and then red has no win at once
    let mut earlier = Board::new();
    earlier.play_moves(&vec!(4, 3, 4, 3, 4));
    let (variant, eval, _, _) = minmax(
        &earlier,
        Color::Red,
        2,
        &[],
        Score::lowest(),
        Score::highest(),
        &mut cache,
        &weigh,
    );
    assert_eq!(variant.len(), 2);
    assert_eq!(variant[1], 4);
    assert!(eval.ppm < 1_000_000);
}

#[test]
fn minmax_tries_the_main_variant_first() {
    let board = Board::new();
    let mut cache = BoardCache::new();
    let (first, eval, _, _) =
        minmax(&board, Color::Red, 2, &[], Score::lowest(), Score::highest(), &mut cache, &weigh);
    let mut again = BoardCache::new();
    let (second, eval_again, _, _) = minmax(
        &board,
        Color::Red,
        2,
        &first,
        Score::lowest(),
        Score::highest(),
        &mut again,
        &weigh,
    );
    assert_eq!(eval, eval_again);
    assert_eq!(first, second);
}

#[test]
fn minmax_with_random_games_at_the_leaves() {
    let mut board = Board::new();
    board.play_moves(&vec!(3, 3, 2));
    let mut cache = BoardCache::new();
    let (variant, eval, moves, positions) = minmax(
        &board,
        Color::Blue,
        1,
        &[],
        Score::lowest(),
        Score::highest(),
        &mut cache,
        &evaluate,
    );
    assert_eq!(variant.len(), 1);
    assert!(0 <= eval.ppm && eval.ppm <= 1_000_000);
    assert!(positions >= 1 && positions <= 7);
    assert!(moves >= 80);
    let mut after = board.clone();
    after.play_move(variant[0], true);
    assert_eq!(cache.get(&after), Some(&eval));
}

#[test]
fn iterative_minmax_without_time_does_nothing() {
    let board = Board::new();
    let mut cache = BoardCache::new();
    assert_eq!(
        iterative_minmax(&board, Color::Red, 0, &mut cache, &weigh),
        (vec!(), Score { ppm: 0 }, 0, 0)
    );
}

#[test]
fn iterative_minmax_gives_a_move_once_a_pass_is_done() {
    let mut board = Board::new();
    board.play_moves(&vec!(3, 3, 2));
    let mut cache = BoardCache::new();
    let (variant, eval, _, positions) = iterative_minmax(&board, Color::Blue, 1, &mut cache, &weigh);
    assert!(!variant.is_empty());
    assert!(0 <= eval.ppm && eval.ppm <= 1_000_000);
    assert!(positions >= 1);
    let mut line = variant.clone();
    line.reverse();
    let mut after = board.clone();
    for column in line {
        assert!(after.moves.moves().contains(&column));
        after.play_move(column, true);
    }
}

#[test]
fn iterative_minmax_stops_where_the_game_ends() {
    // red wins at once: the line of depth 1 is shorter than depth 2 asks for
    let mut board = Board::new();
    board.play_moves(&vec!(4, 3, 4, 3, 4, 3));
    let mut cache = BoardCache::new();
    assert_eq!(
        iterative_minmax(&board, Color::Red, 60_000, &mut cache, &weigh),
        (vec!(4), Score { ppm: 1_000_000 }, 0, 2)
    );
    // a decided position has no line at all
    board.play_move(4, true);
    assert_eq!(
        iterative_minmax(&board, Color::Red, 60_000, &mut cache, &weigh),
        (vec!(), Score { ppm: 1_000_000 }, 0, 1)
    );
}

#[test]
fn iterative_minmax_with_random_games_at_the_leaves() {
    let board = Board::new();
    let mut cache = BoardCache::new();
    let (variant, eval, moves, positions) =
        iterative_minmax(&board, Color::Red, 1, &mut cache, &evaluate);
    assert!(!variant.is_empty());
    assert!(0 <= eval.ppm && eval.ppm <= 1_000_000);
    assert!(moves >= 7 * 80);
    assert!(positions >= 7);
}

#[test]
fn goes_on_while_time_is_left_and_the_line_is_whole() {
    assert!(goes_on(0, 1, 0, 0));
    assert!(goes_on(999, 1, 0, 0));
    assert!(!goes_on(1_000, 1, 0, 0));
    assert!(!goes_on(0, 0, 5, 1));
    assert!(goes_on(0, 1, 2, 2));
    assert!(!goes_on(0, 1, 1, 2));
    // more time than the clock can count
    assert!(goes_on(u64::MAX, u64::MAX, 3, 3));
    assert!(!goes_on(u64::MAX, u64::MAX / 1_000, 3, 3));
}

#[test]
fn iterative_minmax_with_all_the_time_searches_to_the_end_of_the_game() {
    // three cells are free, in columns 2, 1 and 0
    let mut board = Board::new();
    board.play_moves(&FULL[..39]);
    assert_eq!(board.winner, None);
    let mut cache = BoardCache::new();
    let (variant, eval, _, positions) =
        iterative_minmax(&board, Color::Red, u64::MAX, &mut cache, &weigh);
    assert!(!variant.is_empty() && variant.len() <= 3);
    assert!(0 <= eval.ppm && eval.ppm <= 1_000_000);
    assert!(positions >= variant.len() as u64);
    let mut line = variant.clone();
    line.reverse();
    let mut after = board.clone();
    after.play_moves(&line);
    assert!(after.winner.is_some() || after.moves.len() == 0);
}
