//! The position: two bitboards, the column heights, the player to move, and
//! the moves and the winner that were worked out when the last stone fell.

use vstd::prelude::*;
use crate::{Color, Column, COLUMNS};
use crate::lines::{
    bit, cell_mask, find_winner, four_in_a_row, has_cell, lemma_winner_needs_line, on_grid,
    winner_matches_inspection, winner_of, Line,
};
use crate::move_list::MoveList;

verus! {

/// The mask of the 42 cells of the grid.
pub const GRID: u64 = 0x7f7f_7f7f_7f7f;

/// The test that a column is not full.
pub open spec fn has_room(heights: Seq<Column>) -> spec_fn(Column) -> bool {
    |c: Column| heights[c as int] < 6
}

/// The columns that are not full, in the order in which moves are tried.
pub open spec fn legal_moves(heights: Seq<Column>) -> Seq<Column> {
    COLUMNS@.filter(has_room(heights))
}

/// The stones lie on the grid, no cell belongs to both players, and each
/// column is filled from the bottom up to its height.
pub open spec fn grid_ok(red: u64, blue: u64, heights: Seq<Column>) -> bool {
    &&& heights.len() == 7
    &&& forall|c: int| 0 <= c < 7 ==> #[trigger] heights[c] <= 6
    &&& red & blue == 0
    &&& (red | blue) & !GRID == 0
    &&& forall|col: int, row: int|
        on_grid(col, row) ==> (#[trigger] has_cell(red | blue, col, row) <==> row < heights[col])
}

/// Whether the stones lie on the grid, no cell belongs to both players, and
/// each column is filled from the bottom up to its height.
pub fn check_grid(red: u64, blue: u64, heights: &[Column; 7]) -> (r: bool)
    ensures
        r == grid_ok(red, blue, heights@),
{
    if red & blue != 0 {
        return false;
    }
    if (red | blue) & !GRID != 0 {
        return false;
    }
    let mut column: u8 = 0;
    while column < 7
        invariant
            column <= 7,
            forall|c: int| 0 <= c < column ==> #[trigger] heights@[c] <= 6,
            forall|col: int, row: int|
                0 <= col < column && 0 <= row < 6 ==> (#[trigger] has_cell(red | blue, col, row)
                    <==> row < heights@[col]),
        decreases 7 - column,
    {
        let height = heights[column as usize];
        if height > 6 {
            assert(!(heights@[column as int] <= 6));
            return false;
        }
        let mut row: u8 = 0;
        while row < 6
            invariant
                column < 7,
                row <= 6,
                height == heights@[column as int],
                forall|r: int|
                    0 <= r < row ==> (#[trigger] has_cell(red | blue, column as int, r) <==> r
                        < height),
            decreases 6 - row,
        {
            let mask = Board::position_mask(column, row);
            if ((red | blue) & mask != 0) != (row < height) {
                assert(on_grid(column as int, row as int));
                assert(!(has_cell(red | blue, column as int, row as int) <==> row
                    < heights@[column as int]));
                return false;
            }
            row += 1;
        }
        column += 1;
    }
    true
}

/// The sign of a cell in the picture of the grid: `x` for a red stone, `o` for
/// a blue one, `.` for none.
pub open spec fn glyph(red: u64, blue: u64, col: int, row: int) -> char {
    if has_cell(red, col, row) {
        'x'
    } else if has_cell(blue, col, row) {
        'o'
    } else {
        '.'
    }
}

/// The first `n` cells of a row in the picture, each with a blank after it.
pub open spec fn row_text(red: u64, blue: u64, row: int, n: int) -> Seq<char> {
    Seq::new(
        (2 * n) as nat,
        |i: int|
            if i % 2 == 0 {
                glyph(red, blue, i / 2, row)
            } else {
                ' '
            },
    )
}

/// The first `n` rows of the picture, the top row first, with a line break
/// between one row and the next.
pub open spec fn rows_text(red: u64, blue: u64, n: int) -> Seq<char>
    decreases n,
{
    if n <= 0 {
        Seq::empty()
    } else if n == 1 {
        row_text(red, blue, 5, 7)
    } else {
        rows_text(red, blue, n - 1) + seq!['\n'] + row_text(red, blue, 6 - n, 7)
    }
}

/// The picture of the grid: six rows of seven cells, the top row first.
pub fn render_grid(red: u64, blue: u64) -> (text: String)
    ensures
        text@ == rows_text(red, blue, 6),
{
    let mut text = String::new();
    let mut row: u8 = 0;
    while row < 6
        invariant
            row <= 6,
            text@ == rows_text(red, blue, row as int),
        decreases 6 - row,
    {
        if row > 0 {
            proof {
                reveal_strlit("\n");
            }
            text.append("\n");
            assert(text@ =~= rows_text(red, blue, row as int) + seq!['\n']);
        }
        let ghost above = text@;
        let mut column: u8 = 0;
        while column < 7
            invariant
                row < 6,
                column <= 7,
                text@ == above + row_text(red, blue, 5 - row, column as int),
            decreases 7 - column,
        {
            let mask = Board::position_mask(column, 5 - row);
            proof {
                reveal_strlit("x ");
                reveal_strlit("o ");
                reveal_strlit(". ");
            }
            let ghost before = text@;
            if red & mask != 0 {
                text.append("x ");
            } else if blue & mask != 0 {
                text.append("o ");
            } else {
                text.append(". ");
            }
            column += 1;
            assert(text@ =~= above + row_text(red, blue, 5 - row, column as int));
        }
        row += 1;
        assert(text@ =~= rows_text(red, blue, row as int));
    }
    text
}

/// The mask of `red` or of `blue`, whichever is `color`, with `cell` added if
/// `color` is the player `mover`.
pub open spec fn with_stone(mask: u64, color: Color, mover: Color, cell: u64) -> u64 {
    if color == mover {
        mask | cell
    } else {
        mask
    }
}

/// A position as a mathematical value.
pub struct Position {
    pub red: u64,
    pub blue: u64,
    pub heights: Seq<Column>,
    pub mover: Color,
    pub moves: Seq<Column>,
    pub winner: Option<Color>,
}

impl Position {
    /// Whether a stone may be dropped in `column`.
    pub open spec fn can_play(self, column: Column) -> bool {
        column < 7 && self.heights[column as int] < 6
    }

    /// The position after `color` has dropped a stone in `column`; the list of
    /// moves is left as it was.
    pub open spec fn drop_as(self, color: Color, column: Column) -> Position {
        let cell = cell_mask(column as int, self.heights[column as int] as int);
        let red = with_stone(self.red, Color::Red, color, cell);
        let blue = with_stone(self.blue, Color::Blue, color, cell);
        Position {
            red,
            blue,
            heights: self.heights.update(
                column as int,
                (self.heights[column as int] + 1) as Column,
            ),
            mover: self.mover.other(),
            moves: self.moves,
            winner: winner_of(red, blue),
        }
    }

    /// The position after the player to move has dropped a stone in `column`,
    /// with the list of moves brought up to date or left as it was.
    pub open spec fn play(self, column: Column, gen_next_moves: bool) -> Position {
        let next = self.drop_as(self.mover, column);
        if gen_next_moves {
            Position { moves: legal_moves(next.heights), ..next }
        } else {
            next
        }
    }

    /// The position after the moves of `columns`, one after the other.
    pub open spec fn play_all(self, columns: Seq<Column>) -> Position
        decreases columns.len(),
    {
        if columns.len() == 0 {
            self
        } else {
            self.play(columns[0], true).play_all(columns.skip(1))
        }
    }

    /// Whether each of `columns` has room when its turn comes.
    pub open spec fn can_play_all(self, columns: Seq<Column>) -> bool
        decreases columns.len(),
    {
        columns.len() > 0 ==> self.can_play(columns[0]) && self.play(
            columns[0],
            true,
        ).can_play_all(columns.skip(1))
    }

    /// The stones lie on the grid, no cell belongs to both players, and each
    /// column is filled from the bottom up to its height.
    pub open spec fn grid_ok(self) -> bool {
        grid_ok(self.red, self.blue, self.heights)
    }

    /// Every listed move has room.
    pub open spec fn moves_playable(self) -> bool {
        forall|i: int| 0 <= i < self.moves.len() ==> self.can_play(#[trigger] self.moves[i])
    }

    /// The grid is in order, the listed moves are the columns that are not
    /// full, and the winner is the one that the table of lines gives.
    pub open spec fn wf(self) -> bool {
        &&& self.grid_ok()
        &&& self.moves == legal_moves(self.heights)
        &&& self.winner == winner_of(self.red, self.blue)
    }
}

/// A position of the game.
#[derive(Copy, Clone, Debug, PartialEq, Eq)]
pub struct Board {
    pub red: u64,
    pub blue: u64,
    pub column_heights: [Column; 7],
    pub color_to_move: Color,
    pub moves: MoveList,
    pub winner: Option<Color>,
}

impl View for Board {
    type V = Position;

    open spec fn view(&self) -> Position {
        Position {
            red: self.red,
            blue: self.blue,
            heights: self.column_heights@,
            mover: self.color_to_move,
            moves: self.moves@,
            winner: self.winner,
        }
    }
}

impl Board {
    /// The list of moves is well formed and the position is in order.
    pub open spec fn wf(&self) -> bool {
        self.moves.wf() && self@.wf()
    }

    /// The list of moves is well formed and every listed move has room.
    pub open spec fn playable(&self) -> bool {
        self.moves.wf() && self@.heights.len() == 7 && self@.moves_playable()
    }

    /// A well-formed board lists only moves that have room.
    pub proof fn lemma_wf_playable(&self)
        requires
            self.wf(),
        ensures
            self.playable(),
    {
        lemma_legal_moves_playable(self@.heights);
    }

    /// Whether the board is well formed: the grid in order, the list of moves
    /// and the winner those that the stones give.
    pub fn is_well_formed(&self) -> (r: bool)
        ensures
            r == self.wf(),
    {
        if !self.moves.is_well_formed() {
            return false;
        }
        if !check_grid(self.red, self.blue, &self.column_heights) {
            return false;
        }
        let legal = self.compute_moves();
        let listed = self.moves.moves();
        if legal.len() != listed.len() {
            return false;
        }
        let mut i: usize = 0;
        while i < legal.len()
            invariant
                i <= legal@.len(),
                legal@.len() == listed@.len(),
                legal@ == legal_moves(self@.heights),
                listed@ == self@.moves,
                forall|j: int| 0 <= j < i ==> legal@[j] == listed@[j],
            decreases legal@.len() - i,
        {
            if legal[i] != listed[i] {
                assert(self@.moves[i as int] != legal_moves(self@.heights)[i as int]);
                return false;
            }
            i += 1;
        }
        assert(legal@ =~= listed@);
        match (self.winner, self.compute_winner()) {
            (None, None) => true,
            (Some(held), Some(found)) => held == found,
            _ => false,
        }
    }

    /// The empty board, with red to move.
    pub fn new() -> (r: Board)
        ensures
            r.wf(),
            r.playable(),
            r.red == 0,
            r.blue == 0,
            r.column_heights@ == seq![0u8, 0u8, 0u8, 0u8, 0u8, 0u8, 0u8],
            r.color_to_move == Color::Red,
            r.moves@ == COLUMNS@,
            r.winner is None,
    {
        let r = Board {
            red: 0,
            blue: 0,
            column_heights: [0;7],
            color_to_move: Color::Red,
            moves: MoveList::full(),
            winner: None,
        };
        proof {
            assert(r.column_heights@ =~= seq![0u8, 0u8, 0u8, 0u8, 0u8, 0u8, 0u8]);
            lemma_empty_grid();
            lemma_all_legal(r@.heights);
            lemma_legal_moves_playable(r@.heights);
            winner_matches_inspection(0, 0);
        }
        r
    }

    /// The mask of the cell at `height` in `column`.
    pub fn position_mask(column: Column, height: u8) -> (r: u64)
        requires
            height * 8 + column < 64,
        ensures
            r == cell_mask(column as int, height as int),
    {
        1u64 << (height * 8 + column)
    }

    /// The picture of the board: six rows of seven cells, the top row first,
    /// `x` for red, `o` for blue and `.` for an empty cell.
    pub fn render(&self) -> (text: String)
        ensures
            text@ == rows_text(self.red, self.blue, 6),
    {
        render_grid(self.red, self.blue)
    }

    /// Plays the moves of `moves` one after the other, each with the list of
    /// moves brought up to date.
    pub fn play_moves(&mut self, moves: &[Column])
        requires
            old(self)@.can_play_all(moves@),
        ensures
            final(self)@ == old(self)@.play_all(moves@),
            moves@.len() > 0 || old(self).moves.wf() ==> final(self).moves.wf(),
            moves@.len() > 0 || old(self).playable() ==> final(self).playable(),
            old(self)@.grid_ok() ==> final(self)@.grid_ok(),
            old(self).wf() ==> final(self).wf(),
    {
        let mut i: usize = 0;
        assert(moves@.skip(0) =~= moves@);
        while i < moves.len()
            invariant
                i <= moves@.len(),
                self@.can_play_all(moves@.skip(i as int)),
                self@.play_all(moves@.skip(i as int)) == old(self)@.play_all(moves@),
                i > 0 || old(self).moves.wf() ==> self.moves.wf(),
                i > 0 || old(self).playable() ==> self.playable(),
                old(self)@.grid_ok() ==> self@.grid_ok(),
                old(self).wf() ==> self.wf(),
            decreases moves@.len() - i,
        {
            assert(moves@.skip(i as int).skip(1) =~= moves@.skip(i + 1));
            self.play_move(moves[i], true);
            i += 1;
        }
    }

    /// Drops a stone of the player to move into `column`, hands the move to the
    /// other player and works out the winner anew. The list of moves is brought
    /// up to date only if `gen_next_moves` says so. The column must have room:
    /// the caller takes it from the list of moves.
    pub fn play_move(&mut self, column: Column, gen_next_moves: bool)
        requires
            old(self)@.can_play(column),
        ensures
            final(self)@ == old(self)@.play(column, gen_next_moves),
            gen_next_moves ==> final(self).moves.wf() && final(self).playable(),
            !gen_next_moves ==> final(self).moves == old(self).moves,
            old(self)@.grid_ok() ==> final(self)@.grid_ok(),
            old(self).wf() && gen_next_moves ==> final(self).wf(),
    {
        let height = self.height(column);
        let mask = Board::position_mask(column, height);

        self.column_heights[column as usize] = height + 1;

        match self.color_to_move {
            Color::Red => self.red = self.red | mask,
            Color::Blue => self.blue = self.blue | mask,
        };

        if gen_next_moves {
            let moves = self.compute_moves();
            self.moves = MoveList::from(moves.as_slice());
        }
        self.color_to_move = self.color_to_move.switch();
        self.winner = self.compute_winner();
        proof {
            lemma_legal_moves_playable(self@.heights);
            if old(self)@.grid_ok() {
                lemma_drop_keeps_grid(
                    old(self).red,
                    old(self).blue,
                    old(self)@.heights,
                    old(self)@.mover,
                    column,
                );
            }
        }
    }

    /// The columns that are not full, in the order in which moves are tried.
    pub fn compute_moves(&self) -> (r: Vec<Column>)
        ensures
            r@ == legal_moves(self.column_heights@),
            r@.len() <= 7,
    {
        let mut moves: Vec<Column> = Vec::new();
        let mut i: usize = 0;
        while i < 7
            invariant
                i <= 7,
                moves@ == COLUMNS@.take(i as int).filter(has_room(self.column_heights@)),
                moves@.len() <= i,
            decreases 7 - i,
        {
            let column = COLUMNS[i];
            proof {
                assert(COLUMNS@.take(i + 1) =~= COLUMNS@.take(i as int).push(column));
                COLUMNS@.take(i as int).lemma_filter_push(column, has_room(self.column_heights@));
            }
            if self.height(column) < 6 {
                moves.push(column);
            }
            i += 1;
        }
        assert(COLUMNS@.take(7) =~= COLUMNS@);
        moves
    }

    /// How many stones lie in `column`.
    pub fn height(&self, column: Column) -> (r: u8)
        requires
            column < 7,
        ensures
            r == self.column_heights@[column as int],
    {
        self.column_heights[column as usize]
    }

    /// The winner that the table of lines gives for the stones on the board.
    pub fn compute_winner(&self) -> (r: Option<Color>)
        ensures
            r == winner_of(self.red, self.blue),
    {
        find_winner(self.red, self.blue)
    }

    /// Empties the board and gives red the move.
    pub fn reset(&mut self)
        ensures
            final(self).wf(),
            final(self).playable(),
            final(self).red == 0,
            final(self).blue == 0,
            final(self).column_heights@ == seq![0u8, 0u8, 0u8, 0u8, 0u8, 0u8, 0u8],
            final(self).color_to_move == Color::Red,
            final(self).moves@ == COLUMNS@,
            final(self).winner is None,
    {
        self.red = 0;
        self.blue = 0;
        self.column_heights = [0;7];
        self.color_to_move = Color::Red;
        self.moves = MoveList::full();
        self.winner = None;
        proof {
            assert(self.column_heights@ =~= seq![0u8, 0u8, 0u8, 0u8, 0u8, 0u8, 0u8]);
            lemma_empty_grid();
            lemma_all_legal(self@.heights);
            lemma_legal_moves_playable(self@.heights);
            winner_matches_inspection(0, 0);
        }
    }
}

proof fn lemma_zero_mask(x: u64)
    by (bit_vector)
    ensures
        (0u64 | 0u64) & x == 0,
        0u64 & 0u64 == 0,
{
}

/// The empty grid holds no cell, so nobody holds four in a row on it.
pub proof fn lemma_empty_grid()
    ensures
        forall|col: int, row: int| !#[trigger] has_cell(0u64 | 0u64, col, row),
        forall|col: int, row: int| !#[trigger] has_cell(0u64, col, row),
        0u64 & 0u64 == 0,
        (0u64 | 0u64) & !GRID == 0,
        !four_in_a_row(0),
{
    assert forall|col: int, row: int| !#[trigger] has_cell(0u64 | 0u64, col, row) by {
        lemma_zero_mask(cell_mask(col, row));
    }
    assert forall|col: int, row: int| !#[trigger] has_cell(0u64, col, row) by {
        let x = cell_mask(col, row);
        assert(0u64 & x == 0) by (bit_vector);
    }
    lemma_zero_mask(!GRID);
    assert forall|l: Line| !(l.valid() && #[trigger] l.filled_in(0)) by {
        assert(!has_cell(0u64, l.col_at(0), l.row_at(0)));
    }
}

/// Where no column is full, every column is a legal move.
pub proof fn lemma_all_legal(heights: Seq<Column>)
    requires
        heights.len() == 7,
        forall|c: int| 0 <= c < 7 ==> heights[c] < 6,
    ensures
        legal_moves(heights) == COLUMNS@,
{
    let p = has_room(heights);
    let e = Seq::<Column>::empty();
    reveal_with_fuel(Seq::filter, 1);
    assert(e.filter(p) =~= e);
    e.lemma_filter_push(3, p);
    e.push(3).lemma_filter_push(2, p);
    e.push(3).push(2).lemma_filter_push(4, p);
    e.push(3).push(2).push(4).lemma_filter_push(1, p);
    e.push(3).push(2).push(4).push(1).lemma_filter_push(5, p);
    e.push(3).push(2).push(4).push(1).push(5).lemma_filter_push(0, p);
    e.push(3).push(2).push(4).push(1).push(5).push(0).lemma_filter_push(6, p);
    assert(COLUMNS@ =~= e.push(3).push(2).push(4).push(1).push(5).push(0).push(6));
}

/// Every legal move is a column that is not full.
pub proof fn lemma_legal_moves_playable(heights: Seq<Column>)
    requires
        heights.len() == 7,
    ensures
        legal_moves(heights).len() <= 7,
        forall|i: int|
            0 <= i < legal_moves(heights).len() ==> (#[trigger] legal_moves(heights)[i]) < 7
                && heights[legal_moves(heights)[i] as int] < 6,
{
    let p = has_room(heights);
    COLUMNS@.lemma_filter_len(p);
    assert forall|i: int| 0 <= i < legal_moves(heights).len() implies (#[trigger] legal_moves(
        heights,
    )[i]) < 7 && heights[legal_moves(heights)[i] as int] < 6 by {
        let c = legal_moves(heights)[i];
        COLUMNS@.lemma_filter_pred(p, i);
        assert(COLUMNS@.filter(p).contains(c));
        COLUMNS@.lemma_filter_contains_rev(p, c);
    }
}

proof fn lemma_add_bit(a: u64, b: u64, k: u64, j: u64)
    by (bit_vector)
    requires
        k < 64,
        j < 64,
    ensures
        (((a | bit(k)) | b) & bit(j) != 0) == (((a | b) & bit(j) != 0) || j == k),
        ((a | (b | bit(k))) & bit(j) != 0) == (((a | b) & bit(j) != 0) || j == k),
{
}

proof fn lemma_add_bit_apart(a: u64, b: u64, k: u64)
    by (bit_vector)
    requires
        k < 48,
        k % 8 != 7,
        a & b == 0,
        (a | b) & bit(k) == 0,
        (a | b) & !GRID == 0,
    ensures
        (a | bit(k)) & b == 0,
        a & (b | bit(k)) == 0,
        ((a | bit(k)) | b) & !GRID == 0,
        (a | (b | bit(k))) & !GRID == 0,
{
}

/// Where nobody has won, a stone can make only the player who drops it the winner.
pub proof fn lemma_drop_winner(p: Position, color: Color, column: Column)
    requires
        winner_of(p.red, p.blue) is None,
    ensures
        p.drop_as(color, column).winner is None || p.drop_as(color, column).winner == Some(color),
{
    let q = p.drop_as(color, column);
    lemma_winner_needs_line(p.red, p.blue);
    lemma_winner_needs_line(q.red, q.blue);
}

/// Dropping a stone into a column that has room keeps the grid in order.
pub proof fn lemma_drop_keeps_grid(
    red: u64,
    blue: u64,
    heights: Seq<Column>,
    color: Color,
    column: Column,
)
    requires
        grid_ok(red, blue, heights),
        column < 7,
        heights[column as int] < 6,
    ensures
        grid_ok(
            with_stone(red, Color::Red, color, cell_mask(column as int, heights[column as int] as int)),
            with_stone(
                blue,
                Color::Blue,
                color,
                cell_mask(column as int, heights[column as int] as int),
            ),
            heights.update(column as int, (heights[column as int] + 1) as Column),
        ),
{
    let h = heights[column as int];
    let k = (h * 8 + column) as u64;
    let red2 = with_stone(red, Color::Red, color, bit(k));
    let blue2 = with_stone(blue, Color::Blue, color, bit(k));
    let heights2 = heights.update(column as int, (h + 1) as Column);
    assert(!has_cell(red | blue, column as int, h as int));
    lemma_add_bit_apart(red, blue, k);
    assert forall|col: int, row: int| on_grid(col, row) implies (#[trigger] has_cell(
        red2 | blue2,
        col,
        row,
    ) <==> row < heights2[col]) by {
        lemma_add_bit(red, blue, k, (row * 8 + col) as u64);
        assert(has_cell(red | blue, col, row) <==> row < heights[col]);
    }
}

} // verus!
