use row4::lines::{find_winner, WIN_MASKS};
use row4::Color;

#[test]
fn every_line_of_the_table_wins() {
    assert_eq!(WIN_MASKS.len(), 69);
    for mask in WIN_MASKS {
        assert_eq!(find_winner(mask, 0), Some(Color::Red));
        assert_eq!(find_winner(0, mask), Some(Color::Blue));
        // three cells of a line are no line
        let mut bit = 1u64;
        while bit != 0 {
            if mask & bit != 0 {
                assert_eq!(find_winner(mask & !bit, 0), None);
                assert_eq!(find_winner(mask & !bit, bit), None);
            }
            bit <<= 1;
        }
    }
}

#[test]
fn the_first_line_of_the_table_decides() {
    // red holds entry 1, blue entry 0: blue is found first
    assert_eq!(find_winner(WIN_MASKS[1], WIN_MASKS[0]), Some(Color::Blue));
    // on the same entry red is asked first
    assert_eq!(find_winner(WIN_MASKS[5], WIN_MASKS[5]), Some(Color::Red));
    assert_eq!(find_winner(0, 0), None);
}

fn holds(mask: u64, column: i32, row: i32) -> bool {
    mask & (1u64 << (row * 8 + column)) != 0
}

/// Looks for four in a row on the grid itself, cell by cell.
fn inspect(mask: u64) -> bool {
    let steps: [(i32, i32); 4] = [(1, 0), (0, 1), (1, 1), (1, -1)];
    for column in 0..7 {
        for row in 0..6 {
            for (right, up) in steps {
                let last_column = column + 3 * right;
                let last_row = row + 3 * up;
                if last_column > 6 || last_row > 5 || last_row < 0 {
                    continue;
                }
                if (0..4).all(|k| holds(mask, column + k * right, row + k * up)) {
                    return true;
                }
            }
        }
    }
    false
}

#[test]
fn the_table_agrees_with_looking_at_the_grid() {
    let mut state: u64 = 0x2545_f491_4f6c_dd1d;
    let mut with_line = 0;
    for _ in 0..20_000 {
        state ^= state << 13;
        state ^= state >> 7;
        state ^= state << 17;
        let stones = state & 0x7f7f_7f7f_7f7f;
        state ^= state << 13;
        state ^= state >> 7;
        state ^= state << 17;
        let red = stones & state;
        let blue = stones & !state;
        let winner = find_winner(red, blue);
        assert_eq!(winner.is_none(), !inspect(red) && !inspect(blue));
        match winner {
            Some(Color::Red) => assert!(inspect(red)),
            Some(Color::Blue) => assert!(inspect(blue)),
            None => {}
        }
        if winner.is_some() {
            with_line += 1;
        }
    }
    assert!(with_line > 100);
}
