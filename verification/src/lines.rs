//! The lines of four and the test for a winner.

use vstd::prelude::*;
use crate::Color;

verus! {

/// The mask with only bit `k` set.
pub open spec fn bit(k: u64) -> u64 {
    1u64 << k
}

/// The mask of the cell in column `col` of row `row`; each row takes eight bits.
pub open spec fn cell_mask(col: int, row: int) -> u64 {
    bit((row * 8 + col) as u64)
}

/// Whether `(col, row)` is a cell of the 7 x 6 grid.
pub open spec fn on_grid(col: int, row: int) -> bool {
    0 <= col < 7 && 0 <= row < 6
}

/// Whether `mask` holds the cell `(col, row)`.
pub open spec fn has_cell(mask: u64, col: int, row: int) -> bool {
    mask & cell_mask(col, row) != 0
}

/// Four cells in a straight line: a first cell and the step to the next one.
pub struct Line {
    pub col: int,
    pub row: int,
    pub dcol: int,
    pub drow: int,
}

impl Line {
    /// The column of the `k`-th cell.
    pub open spec fn col_at(self, k: int) -> int {
        self.col + k * self.dcol
    }

    /// The row of the `k`-th cell.
    pub open spec fn row_at(self, k: int) -> int {
        self.row + k * self.drow
    }

    /// The line runs up, to the right, or along one of the two diagonals, and
    /// lies on the grid.
    pub open spec fn valid(self) -> bool {
        &&& (self.dcol == 0 && self.drow == 1) || (self.dcol == 1 && self.drow == 0) || (self.dcol
            == 1 && self.drow == 1) || (self.dcol == 1 && self.drow == -1)
        &&& on_grid(self.col, self.row)
        &&& on_grid(self.col_at(3), self.row_at(3))
    }

    /// The mask of the line's four cells.
    pub open spec fn mask(self) -> u64 {
        cell_mask(self.col_at(0), self.row_at(0)) | cell_mask(self.col_at(1), self.row_at(1))
            | cell_mask(self.col_at(2), self.row_at(2)) | cell_mask(self.col_at(3), self.row_at(3))
    }

    /// Whether `m` holds all four cells of the line.
    pub open spec fn filled_in(self, m: u64) -> bool {
        &&& has_cell(m, self.col_at(0), self.row_at(0))
        &&& has_cell(m, self.col_at(1), self.row_at(1))
        &&& has_cell(m, self.col_at(2), self.row_at(2))
        &&& has_cell(m, self.col_at(3), self.row_at(3))
    }
}

/// Whether `mask` holds four cells in a row: along a row, a column or a diagonal.
pub open spec fn four_in_a_row(mask: u64) -> bool {
    exists|l: Line| l.valid() && #[trigger] l.filled_in(mask)
}

/// The table of the 69 lines of four, one mask each: first those that run up a
/// column, then those along a row, then the diagonals, rising and falling by turns.
pub const WIN_MASKS: [u64; 69] = [
    0x0000_0101_0101, 0x0001_0101_0100, 0x0101_0101_0000,
    0x0000_0202_0202, 0x0002_0202_0200, 0x0202_0202_0000,
    0x0000_0404_0404, 0x0004_0404_0400, 0x0404_0404_0000,
    0x0000_0808_0808, 0x0008_0808_0800, 0x0808_0808_0000,
    0x0000_1010_1010, 0x0010_1010_1000, 0x1010_1010_0000,
    0x0000_2020_2020, 0x0020_2020_2000, 0x2020_2020_0000,
    0x0000_4040_4040, 0x0040_4040_4000, 0x4040_4040_0000,
    0x0000_0000_000f, 0x0000_0000_001e, 0x0000_0000_003c,
    0x0000_0000_0078, 0x0000_0000_0f00, 0x0000_0000_1e00,
    0x0000_0000_3c00, 0x0000_0000_7800, 0x0000_000f_0000,
    0x0000_001e_0000, 0x0000_003c_0000, 0x0000_0078_0000,
    0x0000_0f00_0000, 0x0000_1e00_0000, 0x0000_3c00_0000,
    0x0000_7800_0000, 0x000f_0000_0000, 0x001e_0000_0000,
    0x003c_0000_0000, 0x0078_0000_0000, 0x0f00_0000_0000,
    0x1e00_0000_0000, 0x3c00_0000_0000, 0x7800_0000_0000,
    0x0000_0804_0201, 0x0000_0102_0408, 0x0000_1008_0402,
    0x0000_0204_0810, 0x0000_2010_0804, 0x0000_0408_1020,
    0x0000_4020_1008, 0x0000_0810_2040, 0x0008_0402_0100,
    0x0001_0204_0800, 0x0010_0804_0200, 0x0002_0408_1000,
    0x0020_1008_0400, 0x0004_0810_2000, 0x0040_2010_0800,
    0x0008_1020_4000, 0x0804_0201_0000, 0x0102_0408_0000,
    0x1008_0402_0000, 0x0204_0810_0000, 0x2010_0804_0000,
    0x0408_1020_0000, 0x4020_1008_0000, 0x0810_2040_0000,
];

/// The line whose mask is entry `i` of the table.
pub open spec fn line_at(i: int) -> Line {
    if i < 21 {
        Line { col: i / 3, row: i % 3, dcol: 0, drow: 1 }
    } else if i < 45 {
        Line { col: (i - 21) % 4, row: (i - 21) / 4, dcol: 1, drow: 0 }
    } else if (i - 45) % 2 == 0 {
        Line { col: ((i - 45) / 2) % 4, row: ((i - 45) / 2) / 4, dcol: 1, drow: 1 }
    } else {
        Line { col: ((i - 45) / 2) % 4, row: ((i - 45) / 2) / 4 + 3, dcol: 1, drow: -1 }
    }
}

/// The place of a valid line in the table.
pub open spec fn index_of(l: Line) -> int {
    if l.dcol == 0 {
        l.col * 3 + l.row
    } else if l.drow == 0 {
        21 + l.row * 4 + l.col
    } else if l.drow == 1 {
        45 + (l.row * 4 + l.col) * 2
    } else {
        45 + ((l.row - 3) * 4 + l.col) * 2 + 1
    }
}

/// Whether `mask` holds every cell of entry `i` of the table.
pub open spec fn covers(mask: u64, i: int) -> bool {
    mask & WIN_MASKS@[i] == WIN_MASKS@[i]
}

/// The winner found when the table is read from entry `i` on: the owner of the
/// first entry that one of the two masks covers, red before blue on the same entry.
pub open spec fn winner_from(red: u64, blue: u64, i: int) -> Option<Color>
    decreases 69 - i,
{
    if i < 0 || i >= 69 {
        None
    } else if covers(red, i) {
        Some(Color::Red)
    } else if covers(blue, i) {
        Some(Color::Blue)
    } else {
        winner_from(red, blue, i + 1)
    }
}

/// The winner of a position, read off the whole table.
pub open spec fn winner_of(red: u64, blue: u64) -> Option<Color> {
    winner_from(red, blue, 0)
}

/// Classifies a position: the player who owns the first line of the table that
/// is complete, or nobody.
pub fn find_winner(red: u64, blue: u64) -> (r: Option<Color>)
    ensures
        r == winner_of(red, blue),
{
    let mut i: usize = 0;
    while i < 69
        invariant
            i <= 69,
            winner_of(red, blue) == winner_from(red, blue, i as int),
        decreases 69 - i,
    {
        let mask = WIN_MASKS[i];
        if red & mask == mask {
            return Some(Color::Red);
        }
        if blue & mask == mask {
            return Some(Color::Blue);
        }
        i += 1;
    }
    None
}

proof fn lemma_cover_four(m: u64, a: u64, b: u64, c: u64, d: u64)
    by (bit_vector)
    ensures
        (m & (a | b | c | d) == (a | b | c | d)) == (m & a == a && m & b == b && m & c == c && m
            & d == d),
{
}

proof fn lemma_one_bit(m: u64, k: u64)
    by (bit_vector)
    requires
        k < 64,
    ensures
        (m & bit(k) == bit(k)) == (m & bit(k) != 0),
{
}

/// A mask covers a line's mask exactly when it holds the line's four cells.
pub proof fn lemma_line_filled(l: Line, m: u64)
    requires
        l.valid(),
    ensures
        (m & l.mask() == l.mask()) == l.filled_in(m),
{
    let a = cell_mask(l.col_at(0), l.row_at(0));
    let b = cell_mask(l.col_at(1), l.row_at(1));
    let c = cell_mask(l.col_at(2), l.row_at(2));
    let d = cell_mask(l.col_at(3), l.row_at(3));
    lemma_cover_four(m, a, b, c, d);
    lemma_one_bit(m, (l.row_at(0) * 8 + l.col_at(0)) as u64);
    lemma_one_bit(m, (l.row_at(1) * 8 + l.col_at(1)) as u64);
    lemma_one_bit(m, (l.row_at(2) * 8 + l.col_at(2)) as u64);
    lemma_one_bit(m, (l.row_at(3) * 8 + l.col_at(3)) as u64);
}

/// The first 21 entries of the table are the lines that run up a column.
proof fn lemma_table_columns(i: int)
    requires
        0 <= i < 21,
    ensures
        WIN_MASKS@[i] == line_at(i).mask(),
{
    assert(
        bit(0) | bit(8) | bit(16) | bit(24) == 0x0000_0101_0101u64
            && bit(8) | bit(16) | bit(24) | bit(32) == 0x0001_0101_0100u64
            && bit(16) | bit(24) | bit(32) | bit(40) == 0x0101_0101_0000u64
            && bit(1) | bit(9) | bit(17) | bit(25) == 0x0000_0202_0202u64
            && bit(9) | bit(17) | bit(25) | bit(33) == 0x0002_0202_0200u64
            && bit(17) | bit(25) | bit(33) | bit(41) == 0x0202_0202_0000u64
            && bit(2) | bit(10) | bit(18) | bit(26) == 0x0000_0404_0404u64
            && bit(10) | bit(18) | bit(26) | bit(34) == 0x0004_0404_0400u64
            && bit(18) | bit(26) | bit(34) | bit(42) == 0x0404_0404_0000u64
            && bit(3) | bit(11) | bit(19) | bit(27) == 0x0000_0808_0808u64
            && bit(11) | bit(19) | bit(27) | bit(35) == 0x0008_0808_0800u64
            && bit(19) | bit(27) | bit(35) | bit(43) == 0x0808_0808_0000u64
            && bit(4) | bit(12) | bit(20) | bit(28) == 0x0000_1010_1010u64
            && bit(12) | bit(20) | bit(28) | bit(36) == 0x0010_1010_1000u64
            && bit(20) | bit(28) | bit(36) | bit(44) == 0x1010_1010_0000u64
            && bit(5) | bit(13) | bit(21) | bit(29) == 0x0000_2020_2020u64
            && bit(13) | bit(21) | bit(29) | bit(37) == 0x0020_2020_2000u64
            && bit(21) | bit(29) | bit(37) | bit(45) == 0x2020_2020_0000u64
            && bit(6) | bit(14) | bit(22) | bit(30) == 0x0000_4040_4040u64
            && bit(14) | bit(22) | bit(30) | bit(38) == 0x0040_4040_4000u64
            && bit(22) | bit(30) | bit(38) | bit(46) == 0x4040_4040_0000u64
    ) by (bit_vector);
    if i == 0 { assert(WIN_MASKS@[0] == line_at(0).mask()); }
    if i == 1 { assert(WIN_MASKS@[1] == line_at(1).mask()); }
    if i == 2 { assert(WIN_MASKS@[2] == line_at(2).mask()); }
    if i == 3 { assert(WIN_MASKS@[3] == line_at(3).mask()); }
    if i == 4 { assert(WIN_MASKS@[4] == line_at(4).mask()); }
    if i == 5 { assert(WIN_MASKS@[5] == line_at(5).mask()); }
    if i == 6 { assert(WIN_MASKS@[6] == line_at(6).mask()); }
    if i == 7 { assert(WIN_MASKS@[7] == line_at(7).mask()); }
    if i == 8 { assert(WIN_MASKS@[8] == line_at(8).mask()); }
    if i == 9 { assert(WIN_MASKS@[9] == line_at(9).mask()); }
    if i == 10 { assert(WIN_MASKS@[10] == line_at(10).mask()); }
    if i == 11 { assert(WIN_MASKS@[11] == line_at(11).mask()); }
    if i == 12 { assert(WIN_MASKS@[12] == line_at(12).mask()); }
    if i == 13 { assert(WIN_MASKS@[13] == line_at(13).mask()); }
    if i == 14 { assert(WIN_MASKS@[14] == line_at(14).mask()); }
    if i == 15 { assert(WIN_MASKS@[15] == line_at(15).mask()); }
    if i == 16 { assert(WIN_MASKS@[16] == line_at(16).mask()); }
    if i == 17 { assert(WIN_MASKS@[17] == line_at(17).mask()); }
    if i == 18 { assert(WIN_MASKS@[18] == line_at(18).mask()); }
    if i == 19 { assert(WIN_MASKS@[19] == line_at(19).mask()); }
    if i == 20 { assert(WIN_MASKS@[20] == line_at(20).mask()); }
}

/// The next 24 entries are the lines that run along a row.
proof fn lemma_table_rows(i: int)
    requires
        21 <= i < 45,
    ensures
        WIN_MASKS@[i] == line_at(i).mask(),
{
    assert(
        bit(0) | bit(1) | bit(2) | bit(3) == 0x0000_0000_000fu64
            && bit(1) | bit(2) | bit(3) | bit(4) == 0x0000_0000_001eu64
            && bit(2) | bit(3) | bit(4) | bit(5) == 0x0000_0000_003cu64
            && bit(3) | bit(4) | bit(5) | bit(6) == 0x0000_0000_0078u64
            && bit(8) | bit(9) | bit(10) | bit(11) == 0x0000_0000_0f00u64
            && bit(9) | bit(10) | bit(11) | bit(12) == 0x0000_0000_1e00u64
            && bit(10) | bit(11) | bit(12) | bit(13) == 0x0000_0000_3c00u64
            && bit(11) | bit(12) | bit(13) | bit(14) == 0x0000_0000_7800u64
            && bit(16) | bit(17) | bit(18) | bit(19) == 0x0000_000f_0000u64
            && bit(17) | bit(18) | bit(19) | bit(20) == 0x0000_001e_0000u64
            && bit(18) | bit(19) | bit(20) | bit(21) == 0x0000_003c_0000u64
            && bit(19) | bit(20) | bit(21) | bit(22) == 0x0000_0078_0000u64
            && bit(24) | bit(25) | bit(26) | bit(27) == 0x0000_0f00_0000u64
            && bit(25) | bit(26) | bit(27) | bit(28) == 0x0000_1e00_0000u64
            && bit(26) | bit(27) | bit(28) | bit(29) == 0x0000_3c00_0000u64
            && bit(27) | bit(28) | bit(29) | bit(30) == 0x0000_7800_0000u64
            && bit(32) | bit(33) | bit(34) | bit(35) == 0x000f_0000_0000u64
            && bit(33) | bit(34) | bit(35) | bit(36) == 0x001e_0000_0000u64
            && bit(34) | bit(35) | bit(36) | bit(37) == 0x003c_0000_0000u64
            && bit(35) | bit(36) | bit(37) | bit(38) == 0x0078_0000_0000u64
            && bit(40) | bit(41) | bit(42) | bit(43) == 0x0f00_0000_0000u64
            && bit(41) | bit(42) | bit(43) | bit(44) == 0x1e00_0000_0000u64
            && bit(42) | bit(43) | bit(44) | bit(45) == 0x3c00_0000_0000u64
            && bit(43) | bit(44) | bit(45) | bit(46) == 0x7800_0000_0000u64
    ) by (bit_vector);
    if i == 21 { assert(WIN_MASKS@[21] == line_at(21).mask()); }
    if i == 22 { assert(WIN_MASKS@[22] == line_at(22).mask()); }
    if i == 23 { assert(WIN_MASKS@[23] == line_at(23).mask()); }
    if i == 24 { assert(WIN_MASKS@[24] == line_at(24).mask()); }
    if i == 25 { assert(WIN_MASKS@[25] == line_at(25).mask()); }
    if i == 26 { assert(WIN_MASKS@[26] == line_at(26).mask()); }
    if i == 27 { assert(WIN_MASKS@[27] == line_at(27).mask()); }
    if i == 28 { assert(WIN_MASKS@[28] == line_at(28).mask()); }
    if i == 29 { assert(WIN_MASKS@[29] == line_at(29).mask()); }
    if i == 30 { assert(WIN_MASKS@[30] == line_at(30).mask()); }
    if i == 31 { assert(WIN_MASKS@[31] == line_at(31).mask()); }
    if i == 32 { assert(WIN_MASKS@[32] == line_at(32).mask()); }
    if i == 33 { assert(WIN_MASKS@[33] == line_at(33).mask()); }
    if i == 34 { assert(WIN_MASKS@[34] == line_at(34).mask()); }
    if i == 35 { assert(WIN_MASKS@[35] == line_at(35).mask()); }
    if i == 36 { assert(WIN_MASKS@[36] == line_at(36).mask()); }
    if i == 37 { assert(WIN_MASKS@[37] == line_at(37).mask()); }
    if i == 38 { assert(WIN_MASKS@[38] == line_at(38).mask()); }
    if i == 39 { assert(WIN_MASKS@[39] == line_at(39).mask()); }
    if i == 40 { assert(WIN_MASKS@[40] == line_at(40).mask()); }
    if i == 41 { assert(WIN_MASKS@[41] == line_at(41).mask()); }
    if i == 42 { assert(WIN_MASKS@[42] == line_at(42).mask()); }
    if i == 43 { assert(WIN_MASKS@[43] == line_at(43).mask()); }
    if i == 44 { assert(WIN_MASKS@[44] == line_at(44).mask()); }
}

/// The last 24 entries are the diagonal lines.
proof fn lemma_table_diagonals(i: int)
    requires
        45 <= i < 69,
    ensures
        WIN_MASKS@[i] == line_at(i).mask(),
{
    assert(
        bit(0) | bit(9) | bit(18) | bit(27) == 0x0000_0804_0201u64
            && bit(24) | bit(17) | bit(10) | bit(3) == 0x0000_0102_0408u64
            && bit(1) | bit(10) | bit(19) | bit(28) == 0x0000_1008_0402u64
            && bit(25) | bit(18) | bit(11) | bit(4) == 0x0000_0204_0810u64
            && bit(2) | bit(11) | bit(20) | bit(29) == 0x0000_2010_0804u64
            && bit(26) | bit(19) | bit(12) | bit(5) == 0x0000_0408_1020u64
            && bit(3) | bit(12) | bit(21) | bit(30) == 0x0000_4020_1008u64
            && bit(27) | bit(20) | bit(13) | bit(6) == 0x0000_0810_2040u64
            && bit(8) | bit(17) | bit(26) | bit(35) == 0x0008_0402_0100u64
            && bit(32) | bit(25) | bit(18) | bit(11) == 0x0001_0204_0800u64
            && bit(9) | bit(18) | bit(27) | bit(36) == 0x0010_0804_0200u64
            && bit(33) | bit(26) | bit(19) | bit(12) == 0x0002_0408_1000u64
            && bit(10) | bit(19) | bit(28) | bit(37) == 0x0020_1008_0400u64
            && bit(34) | bit(27) | bit(20) | bit(13) == 0x0004_0810_2000u64
            && bit(11) | bit(20) | bit(29) | bit(38) == 0x0040_2010_0800u64
            && bit(35) | bit(28) | bit(21) | bit(14) == 0x0008_1020_4000u64
            && bit(16) | bit(25) | bit(34) | bit(43) == 0x0804_0201_0000u64
            && bit(40) | bit(33) | bit(26) | bit(19) == 0x0102_0408_0000u64
            && bit(17) | bit(26) | bit(35) | bit(44) == 0x1008_0402_0000u64
            && bit(41) | bit(34) | bit(27) | bit(20) == 0x0204_0810_0000u64
            && bit(18) | bit(27) | bit(36) | bit(45) == 0x2010_0804_0000u64
            && bit(42) | bit(35) | bit(28) | bit(21) == 0x0408_1020_0000u64
            && bit(19) | bit(28) | bit(37) | bit(46) == 0x4020_1008_0000u64
            && bit(43) | bit(36) | bit(29) | bit(22) == 0x0810_2040_0000u64
    ) by (bit_vector);
    if i == 45 { assert(WIN_MASKS@[45] == line_at(45).mask()); }
    if i == 46 { assert(WIN_MASKS@[46] == line_at(46).mask()); }
    if i == 47 { assert(WIN_MASKS@[47] == line_at(47).mask()); }
    if i == 48 { assert(WIN_MASKS@[48] == line_at(48).mask()); }
    if i == 49 { assert(WIN_MASKS@[49] == line_at(49).mask()); }
    if i == 50 { assert(WIN_MASKS@[50] == line_at(50).mask()); }
    if i == 51 { assert(WIN_MASKS@[51] == line_at(51).mask()); }
    if i == 52 { assert(WIN_MASKS@[52] == line_at(52).mask()); }
    if i == 53 { assert(WIN_MASKS@[53] == line_at(53).mask()); }
    if i == 54 { assert(WIN_MASKS@[54] == line_at(54).mask()); }
    if i == 55 { assert(WIN_MASKS@[55] == line_at(55).mask()); }
    if i == 56 { assert(WIN_MASKS@[56] == line_at(56).mask()); }
    if i == 57 { assert(WIN_MASKS@[57] == line_at(57).mask()); }
    if i == 58 { assert(WIN_MASKS@[58] == line_at(58).mask()); }
    if i == 59 { assert(WIN_MASKS@[59] == line_at(59).mask()); }
    if i == 60 { assert(WIN_MASKS@[60] == line_at(60).mask()); }
    if i == 61 { assert(WIN_MASKS@[61] == line_at(61).mask()); }
    if i == 62 { assert(WIN_MASKS@[62] == line_at(62).mask()); }
    if i == 63 { assert(WIN_MASKS@[63] == line_at(63).mask()); }
    if i == 64 { assert(WIN_MASKS@[64] == line_at(64).mask()); }
    if i == 65 { assert(WIN_MASKS@[65] == line_at(65).mask()); }
    if i == 66 { assert(WIN_MASKS@[66] == line_at(66).mask()); }
    if i == 67 { assert(WIN_MASKS@[67] == line_at(67).mask()); }
    if i == 68 { assert(WIN_MASKS@[68] == line_at(68).mask()); }
}

/// Every entry of the table is the mask of its line.
pub proof fn lemma_table_entry(i: int)
    requires
        0 <= i < 69,
    ensures
        line_at(i).valid(),
        WIN_MASKS@[i] == line_at(i).mask(),
        index_of(line_at(i)) == i,
{
    if i < 21 {
        lemma_table_columns(i);
    } else if i < 45 {
        lemma_table_rows(i);
    } else {
        lemma_table_diagonals(i);
    }
}

/// Every valid line has its entry in the table.
pub proof fn lemma_line_in_table(l: Line)
    requires
        l.valid(),
    ensures
        0 <= index_of(l) < 69,
        line_at(index_of(l)) == l,
{
}

/// What reading the table from entry `i` on finds.
proof fn lemma_winner_from(red: u64, blue: u64, i: int)
    requires
        0 <= i <= 69,
    ensures
        winner_from(red, blue, i) is None <==> forall|j: int|
            i <= j < 69 ==> !covers(red, j) && !covers(blue, j),
        winner_from(red, blue, i) == Some(Color::Red) ==> exists|j: int|
            i <= j < 69 && covers(red, j),
        winner_from(red, blue, i) == Some(Color::Blue) ==> exists|j: int|
            i <= j < 69 && covers(blue, j),
    decreases 69 - i,
{
    if i < 69 {
        lemma_winner_from(red, blue, i + 1);
    }
}

/// Nobody is the winner exactly where neither mask covers an entry of the
/// table, and a winner's mask covers one.
pub proof fn lemma_winner_needs_line(red: u64, blue: u64)
    ensures
        winner_of(red, blue) is None <==> forall|j: int|
            0 <= j < 69 ==> !covers(red, j) && !covers(blue, j),
        winner_of(red, blue) == Some(Color::Red) ==> exists|j: int| 0 <= j < 69 && covers(red, j),
        winner_of(red, blue) == Some(Color::Blue) ==> exists|j: int|
            0 <= j < 69 && covers(blue, j),
{
    lemma_winner_from(red, blue, 0);
}

/// A mask covers some entry of the table exactly when it holds four in a row.
pub proof fn lemma_covers_some(mask: u64)
    ensures
        four_in_a_row(mask) <==> exists|j: int| 0 <= j < 69 && covers(mask, j),
{
    if four_in_a_row(mask) {
        let l = choose|l: Line| l.valid() && #[trigger] l.filled_in(mask);
        lemma_line_in_table(l);
        lemma_line_filled(l, mask);
        lemma_table_entry(index_of(l));
        assert(covers(mask, index_of(l)));
    }
    if exists|j: int| 0 <= j < 69 && covers(mask, j) {
        let j = choose|j: int| 0 <= j < 69 && covers(mask, j);
        lemma_table_entry(j);
        lemma_line_filled(line_at(j), mask);
        assert(line_at(j).filled_in(mask));
    }
}

/// The winner that the table gives agrees with looking for four in a row on the
/// grid itself: nobody has won exactly when neither player holds four cells in
/// a line, and a player who is named the winner holds such a line.
pub proof fn winner_matches_inspection(red: u64, blue: u64)
    ensures
        winner_of(red, blue) is None <==> !four_in_a_row(red) && !four_in_a_row(blue),
        winner_of(red, blue) == Some(Color::Red) ==> four_in_a_row(red),
        winner_of(red, blue) == Some(Color::Blue) ==> four_in_a_row(blue),
{
    lemma_winner_from(red, blue, 0);
    lemma_covers_some(red);
    lemma_covers_some(blue);
}

} // verus!
