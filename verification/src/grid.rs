//! The bare grid: two bitboards and the column heights, with no memory of
//! whose turn it is. The caller names the player with every stone.

use vstd::prelude::*;
use crate::{Color, Column, COLUMNS};
use crate::board::{
    check_grid, grid_ok, has_room, legal_moves, lemma_drop_keeps_grid, lemma_empty_grid,
    render_grid, rows_text, with_stone,
};
use crate::lines::{cell_mask, find_winner, lemma_table_entry, line_at, winner_of, Line, WIN_MASKS};

verus! {

/// The stones of the two players, one bit for each cell, and the heights of
/// the columns.
///
/// Bits 0 to 6 of the first byte are the bottom row of the grid, bits 0 to 6
/// of the second byte the row above it, and so on.
#[derive(Copy, Clone, Debug, PartialEq, Eq)]
pub struct Board {
    pub red: u64,
    pub blue: u64,
    pub column_heights: [Column; 7],
}

/// The masks and heights after the stones of `moves` have been dropped, by
/// `color` first and by the two players in turn after that.
pub open spec fn dropped(
    red: u64,
    blue: u64,
    heights: Seq<Column>,
    color: Color,
    moves: Seq<Column>,
) -> (u64, u64, Seq<Column>)
    decreases moves.len(),
{
    if moves.len() == 0 {
        (red, blue, heights)
    } else {
        let cell = cell_mask(moves[0] as int, heights[moves[0] as int] as int);
        dropped(
            with_stone(red, Color::Red, color, cell),
            with_stone(blue, Color::Blue, color, cell),
            heights.update(moves[0] as int, (heights[moves[0] as int] + 1) as Column),
            color.other(),
            moves.skip(1),
        )
    }
}

/// Whether each of `moves` finds room when its turn comes.
pub open spec fn room_for(heights: Seq<Column>, moves: Seq<Column>) -> bool
    decreases moves.len(),
{
    moves.len() > 0 ==> moves[0] < 7 && heights[moves[0] as int] < 6 && room_for(
        heights.update(moves[0] as int, (heights[moves[0] as int] + 1) as Column),
        moves.skip(1),
    )
}

/// The first `n` cells of `l`, joined into one mask.
pub open spec fn joined(l: Line, n: int) -> u64
    decreases n,
{
    if n <= 0 {
        0
    } else {
        joined(l, n - 1) | cell_mask(l.col_at(n - 1), l.row_at(n - 1))
    }
}

proof fn lemma_join_four(a: u64, b: u64, c: u64, d: u64)
    by (bit_vector)
    ensures
        (((0u64 | a) | b) | c) | d == a | b | c | d,
        (((0u64 | a) | b) | c) | d == d | c | b | a,
{
}

/// Where the `k`-th cell of a line lies.
proof fn lemma_cell_at(l: Line, k: int)
    by (nonlinear_arith)
    ensures
        l.dcol == 0 ==> l.col_at(k) == l.col,
        l.dcol == 1 ==> l.col_at(k) == l.col + k,
        l.dcol == -1 ==> l.col_at(k) == l.col - k,
        l.drow == 0 ==> l.row_at(k) == l.row,
        l.drow == 1 ==> l.row_at(k) == l.row + k,
{
}

/// Four cells joined one by one give the mask of their line, in either direction.
proof fn lemma_joined(l: Line)
    ensures
        joined(l, 4) == l.mask(),
        joined(l, 4) == (Line {
            col: l.col_at(3),
            row: l.row_at(3),
            dcol: -l.dcol,
            drow: -l.drow,
        }).mask(),
{
    reveal_with_fuel(joined, 5);
    lemma_join_four(
        cell_mask(l.col_at(0), l.row_at(0)),
        cell_mask(l.col_at(1), l.row_at(1)),
        cell_mask(l.col_at(2), l.row_at(2)),
        cell_mask(l.col_at(3), l.row_at(3)),
    );
}

impl Board {
    /// The stones lie on the grid, no cell belongs to both players, and each
    /// column is filled from the bottom up to its height.
    pub open spec fn wf(&self) -> bool {
        grid_ok(self.red, self.blue, self.column_heights@)
    }

    /// Whether the grid is well formed.
    pub fn is_well_formed(&self) -> (r: bool)
        ensures
            r == self.wf(),
    {
        check_grid(self.red, self.blue, &self.column_heights)
    }

    /// The empty grid.
    pub fn new() -> (r: Board)
        ensures
            r.wf(),
            r.red == 0,
            r.blue == 0,
            r.column_heights@ == seq![0u8, 0u8, 0u8, 0u8, 0u8, 0u8, 0u8],
    {
        let r = Board { red: 0, blue: 0, column_heights: [0;7] };
        proof {
            assert(r.column_heights@ =~= seq![0u8, 0u8, 0u8, 0u8, 0u8, 0u8, 0u8]);
            lemma_empty_grid();
        }
        r
    }

    /// The picture of the grid: six rows of seven cells, the top row first,
    /// `x` for red, `o` for blue and `.` for an empty cell.
    pub fn render(&self) -> (text: String)
        ensures
            text@ == rows_text(self.red, self.blue, 6),
    {
        render_grid(self.red, self.blue)
    }

    /// The mask of the cell at `height` in `column`.
    pub fn position_mask(column: Column, height: u8) -> (r: u64)
        requires
            height * 8 + column < 64,
        ensures
            r == cell_mask(column as int, height as int),
    {
        1u64 << (height * 8 + column)
    }

    /// The other player.
    pub fn switch_color(color: Color) -> (r: Color)
        ensures
            r == color.other(),
    {
        if color == Color::Red {
            Color::Blue
        } else {
            Color::Red
        }
    }

    /// Builds the table of the lines of four: those that run up a column,
    /// those along a row, then the diagonals, rising and falling by turns.
    pub fn compute_win_masks() -> (masks: Vec<u64>)
        ensures
            masks@ == WIN_MASKS@,
            forall|i: int| 0 <= i < 69 ==> masks@[i] == #[trigger] line_at(i).mask(),
    {
        let mut masks: Vec<u64> = Vec::new();
        // up the columns
        for col in 0..7u8
            invariant
                masks@.len() == col * 3,
                forall|i: int| 0 <= i < masks@.len() ==> masks@[i] == #[trigger] line_at(i).mask(),
        {
            for row in 0..3u8
                invariant
                    col < 7,
                    masks@.len() == col * 3 + row,
                    forall|i: int|
                        0 <= i < masks@.len() ==> masks@[i] == #[trigger] line_at(i).mask(),
            {
                let ghost l = Line { col: col as int, row: row as int, dcol: 0, drow: 1 };
                let mut mask = 0u64;
                for idx in 0..4u8
                    invariant
                        col < 7,
                        row < 3,
                        l == (Line { col: col as int, row: row as int, dcol: 0, drow: 1 }),
                        mask == joined(l, idx as int),
                {
                    proof {
                        lemma_cell_at(l, idx as int);
                    }
                    mask |= Board::position_mask(col, row + idx);
                }
                proof {
                    lemma_joined(l);
                    assert(line_at(masks@.len() as int) == l);
                }
                masks.push(mask);
            }
        }
        // along the rows
        for row in 0..6u8
            invariant
                masks@.len() == 21 + row * 4,
                forall|i: int| 0 <= i < masks@.len() ==> masks@[i] == #[trigger] line_at(i).mask(),
        {
            for col in 0..4u8
                invariant
                    row < 6,
                    masks@.len() == 21 + row * 4 + col,
                    forall|i: int|
                        0 <= i < masks@.len() ==> masks@[i] == #[trigger] line_at(i).mask(),
            {
                let ghost l = Line { col: col as int, row: row as int, dcol: 1, drow: 0 };
                let mut mask = 0u64;
                for idx in 0..4u8
                    invariant
                        col < 4,
                        row < 6,
                        l == (Line { col: col as int, row: row as int, dcol: 1, drow: 0 }),
                        mask == joined(l, idx as int),
                {
                    proof {
                        lemma_cell_at(l, idx as int);
                    }
                    mask |= Board::position_mask(col + idx, row);
                }
                proof {
                    lemma_joined(l);
                    assert(line_at(masks@.len() as int) == l);
                }
                masks.push(mask);
            }
        }
        // the diagonals
        for row in 0..3u8
            invariant
                masks@.len() == 45 + row * 8,
                forall|i: int| 0 <= i < masks@.len() ==> masks@[i] == #[trigger] line_at(i).mask(),
        {
            for col in 0..4u8
                invariant
                    row < 3,
                    masks@.len() == 45 + (row * 4 + col) * 2,
                    forall|i: int|
                        0 <= i < masks@.len() ==> masks@[i] == #[trigger] line_at(i).mask(),
            {
                let ghost rising = Line { col: col as int, row: row as int, dcol: 1, drow: 1 };
                let ghost falling = Line { col: col + 3, row: row as int, dcol: -1, drow: 1 };
                let mut mask_left = 0u64;
                let mut mask_right = 0u64;
                for idx in 0..4u8
                    invariant
                        col < 4,
                        row < 3,
                        rising == (Line { col: col as int, row: row as int, dcol: 1, drow: 1 }),
                        falling == (Line { col: col + 3, row: row as int, dcol: -1, drow: 1 }),
                        mask_left == joined(rising, idx as int),
                        mask_right == joined(falling, idx as int),
                {
                    proof {
                        lemma_cell_at(rising, idx as int);
                        lemma_cell_at(falling, idx as int);
                    }
                    mask_left |= Board::position_mask(col + idx, row + idx);
                    mask_right |= Board::position_mask(col + 3 - idx, row + idx);
                }
                proof {
                    lemma_joined(rising);
                    lemma_joined(falling);
                    assert(line_at(masks@.len() as int) == rising);
                    assert(line_at(masks@.len() as int + 1) == (Line {
                        col: falling.col_at(3),
                        row: falling.row_at(3),
                        dcol: 1,
                        drow: -1,
                    }));
                }
                masks.push(mask_left);
                masks.push(mask_right);
            }
        }
        proof {
            assert forall|i: int| 0 <= i < 69 implies masks@[i] == WIN_MASKS@[i] by {
                lemma_table_entry(i);
            }
            assert(masks@ =~= WIN_MASKS@);
        }
        masks
    }

    /// Drops the stones of `moves`, the first for `color` and then for the two
    /// players in turn.
    pub fn play_moves(&mut self, color: Color, moves: Vec<Column>)
        requires
            room_for(old(self).column_heights@, moves@),
        ensures
            (final(self).red, final(self).blue, final(self).column_heights@) == dropped(
                old(self).red,
                old(self).blue,
                old(self).column_heights@,
                color,
                moves@,
            ),
            old(self).wf() ==> final(self).wf(),
    {
        let first = color;
        let mut color = color;
        let mut i: usize = 0;
        assert(moves@.skip(0) =~= moves@);
        while i < moves.len()
            invariant
                i <= moves@.len(),
                room_for(self.column_heights@, moves@.skip(i as int)),
                dropped(self.red, self.blue, self.column_heights@, color, moves@.skip(i as int))
                    == dropped(
                    old(self).red,
                    old(self).blue,
                    old(self).column_heights@,
                    first,
                    moves@,
                ),
                old(self).wf() ==> self.wf(),
            decreases moves@.len() - i,
        {
            assert(moves@.skip(i as int).skip(1) =~= moves@.skip(i + 1));
            self.play_move(color, moves[i]);
            color = Board::switch_color(color);
            i += 1;
        }
    }

    /// Drops a stone of `color` into `column`. The column must have room: the
    /// caller takes it from the moves.
    pub fn play_move(&mut self, color: Color, column: Column)
        requires
            column < 7,
            old(self).column_heights@[column as int] < 6,
        ensures
            final(self).red == with_stone(
                old(self).red,
                Color::Red,
                color,
                cell_mask(column as int, old(self).column_heights@[column as int] as int),
            ),
            final(self).blue == with_stone(
                old(self).blue,
                Color::Blue,
                color,
                cell_mask(column as int, old(self).column_heights@[column as int] as int),
            ),
            final(self).column_heights@ == old(self).column_heights@.update(
                column as int,
                (old(self).column_heights@[column as int] + 1) as Column,
            ),
            old(self).wf() ==> final(self).wf(),
    {
        let height = self.height(column);
        let mask = Board::position_mask(column, height);

        self.column_heights[column as usize] = height + 1;

        match color {
            Color::Red => self.red = self.red | mask,
            Color::Blue => self.blue = self.blue | mask,
        };
        proof {
            if old(self).wf() {
                lemma_drop_keeps_grid(
                    old(self).red,
                    old(self).blue,
                    old(self).column_heights@,
                    color,
                    column,
                );
            }
        }
    }

    /// The columns that are not full, in the order in which moves are tried.
    pub fn moves(&self) -> (r: Vec<Column>)
        ensures
            r@ == legal_moves(self.column_heights@),
    {
        let mut moves: Vec<Column> = Vec::new();
        let mut i: usize = 0;
        while i < 7
            invariant
                i <= 7,
                moves@ == COLUMNS@.take(i as int).filter(has_room(self.column_heights@)),
            decreases 7 - i,
        {
            let column = COLUMNS[i];
            proof {
                assert(COLUMNS@.take(i + 1) =~= COLUMNS@.take(i as int).push(column));
                COLUMNS@.take(i as int).lemma_filter_push(column, has_room(self.column_heights@));
            }
            if self.height(column) < 6 {
                moves.push(column);
            }
            i += 1;
        }
        assert(COLUMNS@.take(7) =~= COLUMNS@);
        moves
    }

    /// How many stones lie in `column`.
    pub fn height(&self, column: Column) -> (r: u8)
        requires
            column < 7,
        ensures
            r == self.column_heights@[column as int],
    {
        self.column_heights[column as usize]
    }

    /// The winner that the table of lines gives for the stones on the grid.
    pub fn has_won(&self) -> (r: Option<Color>)
        ensures
            r == winner_of(self.red, self.blue),
    {
        find_winner(self.red, self.blue)
    }

    /// Empties the board.
    pub fn reset(&mut self)
        ensures
            final(self).wf(),
            final(self).red == 0,
            final(self).blue == 0,
            final(self).column_heights@ == seq![0u8, 0u8, 0u8, 0u8, 0u8, 0u8, 0u8],
    {
        self.red = 0;
        self.blue = 0;
        self.column_heights = [0;7];
        proof {
            assert(self.column_heights@ =~= seq![0u8, 0u8, 0u8, 0u8, 0u8, 0u8, 0u8]);
            lemma_empty_grid();
        }
    }
}

} // verus!
