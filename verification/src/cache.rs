//! The values of positions already looked at, kept under the stones of the
//! player to move and of the opponent, and under the three positions that the
//! symmetries of the game make of them.

use vstd::prelude::*;
use std::collections::HashMap;
use crate::Color;
use crate::board::{Board, Position, GRID};
use crate::lines::{bit, has_cell, on_grid};
use crate::score::Score;

verus! {

/// The cells of column 0.
pub const COLUMN_0: u64 = 0x0101_0101_0101;

/// The grid turned left to right: column `c` of every row goes to column `6 - c`.
/// Bits that are no cell of the grid are dropped.
pub open spec fn mirror_of(x: u64) -> u64 {
    ((x & COLUMN_0) << 6)
        | ((x & (COLUMN_0 << 1)) << 4)
        | ((x & (COLUMN_0 << 2)) << 2)
        | (x & (COLUMN_0 << 3))
        | ((x & (COLUMN_0 << 4)) >> 2)
        | ((x & (COLUMN_0 << 5)) >> 4)
        | ((x & (COLUMN_0 << 6)) >> 6)
}

/// The key of a position: the stones of the player to move, then those of the opponent.
pub open spec fn key_of(p: Position) -> (u64, u64) {
    if p.mover == Color::Red {
        (p.red, p.blue)
    } else {
        (p.blue, p.red)
    }
}

/// The cache after `eval` has been stored under `key`: four entries are
/// written, one after the other. The position itself and its mirror image get
/// `eval`; the two with the players swapped get what is left of the whole.
pub open spec fn stored(m: Map<(u64, u64), Score>, key: (u64, u64), eval: Score) -> Map<
    (u64, u64),
    Score,
> {
    let rest = Score { ppm: (1_000_000 - eval.ppm) as i64 };
    m.insert(key, eval).insert((key.1, key.0), rest).insert(
        (mirror_of(key.0), mirror_of(key.1)),
        eval,
    ).insert((mirror_of(key.1), mirror_of(key.0)), rest)
}

/// The two masks of a key as one number.
pub open spec fn pack(key: (u64, u64)) -> u128 {
    (key.0 * 0x1_0000_0000_0000_0000 + key.1) as u128
}

/// The cache that a map from packed keys stands for.
pub open spec fn unpacked(m: Map<u128, Score>) -> Map<(u64, u64), Score> {
    Map::new(|key: (u64, u64)| m.contains_key(pack(key)), |key: (u64, u64)| m[pack(key)])
}

proof fn lemma_unpacked_insert(m: Map<u128, Score>, key: (u64, u64), eval: Score)
    ensures
        unpacked(m.insert(pack(key), eval)) == unpacked(m).insert(key, eval),
{
    assert forall|other: (u64, u64)| pack(other) == pack(key) implies other == key by {
        assert(other.0 == key.0 && other.1 == key.1);
    }
    assert(unpacked(m.insert(pack(key), eval)) =~= unpacked(m).insert(key, eval));
}

/// The positions that were valued, each with its value.
pub struct BoardCache {
    // the key is the mover/opponent board encoding
    cache: HashMap<u128, Score>,
}

impl View for BoardCache {
    type V = Map<(u64, u64), Score>;

    closed spec fn view(&self) -> Map<(u64, u64), Score> {
        unpacked(self.cache@)
    }
}

/// The cells of the target that are settled when the mirror stands at column
/// `c` of the `r`-th row from the top: the rows above, and the columns of the
/// row before `c`.
pub open spec fn settled_cells(r: u64, c: u64) -> u64 {
    ((GRID >> ((8 * (6 - r)) as u64)) << ((8 * (6 - r)) as u64))
        | ((((1u64 << c) - 1) as u64) << ((8 * (5 - r)) as u64))
}

proof fn lemma_mirror_start(src: u64)
    by (bit_vector)
    ensures
        0 == mirror_of(src) & settled_cells(0, 0),
        (1u64 << 46) >> 0 == 1u64 << 46,
        (1u64 << 40) == 1u64 << ((40 - 8 * 0) as u64),
{
}

proof fn lemma_mirror_step(src: u64, target: u64, r: u64, c: u64)
    by (bit_vector)
    requires
        r < 6,
        c < 7,
        target == mirror_of(src) & settled_cells(r, c),
    ensures
        src & ((1u64 << 46) >> ((8 * r + c) as u64)) != 0 ==> target | (1u64 << ((40 - 8 * r
            + c) as u64)) == mirror_of(src) & settled_cells(r, (c + 1) as u64),
        src & ((1u64 << 46) >> ((8 * r + c) as u64)) == 0 ==> target == mirror_of(src) & settled_cells(
            r,
            (c + 1) as u64,
        ),
        ((1u64 << 46) >> ((8 * r + c) as u64)) >> 1 == (1u64 << 46) >> ((8 * r + c + 1) as u64),
        (1u64 << ((40 - 8 * r + c) as u64)) << 1 == 1u64 << ((40 - 8 * r + c + 1) as u64),
{
}

proof fn lemma_mirror_row(src: u64, r: u64)
    by (bit_vector)
    requires
        r < 6,
    ensures
        settled_cells(r, 7) == settled_cells((r + 1) as u64, 0),
        ((1u64 << 46) >> ((8 * r + 7) as u64)) >> 1 == (1u64 << 46) >> ((8 * (r + 1)) as u64),
        r < 5 ==> (1u64 << ((40 - 8 * r + 7) as u64)) >> 15 == 1u64 << ((40 - 8 * (r + 1)) as u64),
        mirror_of(src) & settled_cells(6, 0) == mirror_of(src),
{
}

impl BoardCache {
    /// Every value in the cache is a probability.
    #[verifier::type_invariant]
    spec fn inv(self) -> bool {
        forall|k: u128| self.cache@.contains_key(k) ==> (#[trigger] self.cache@[k]).is_probability()
    }

    /// The empty cache.
    pub fn new() -> (r: BoardCache)
        ensures
            r@ == Map::<(u64, u64), Score>::empty(),
    {
        let r = BoardCache { cache: HashMap::new() };
        assert(r@ =~= Map::<(u64, u64), Score>::empty());
        r
    }

    /// The key of `board`: the stones of the player to move, then those of the
    /// opponent.
    fn key(board: &Board) -> (r: (u64, u64))
        ensures
            r == key_of(board@),
    {
        match board.color_to_move {
            Color::Red => (board.red, board.blue),
            Color::Blue => (board.blue, board.red),
        }
    }

    /// The two masks of a key as one number.
    fn packed(mover: u64, other: u64) -> (r: u128)
        ensures
            r == pack((mover, other)),
    {
        mover as u128 * 0x1_0000_0000_0000_0000 + other as u128
    }

    /// Remembers `eval` as the value of `board`, and with it the values of the
    /// three positions that the symmetries make of `board`.
    pub fn store(&mut self, board: &Board, eval: Score)
        requires
            eval.is_probability(),
        ensures
            final(self)@ == stored(old(self)@, key_of(board@), eval),
    {
        broadcast use vstd::std_specs::hash::group_hash_axioms;

        let (mover, other) = BoardCache::key(board);
        let rest = eval.complement();
        let mirrored_mover = BoardCache::mirror(mover);
        let mirrored_other = BoardCache::mirror(other);
        proof {
            use_type_invariant(&*self);
        }
        let mut cache: HashMap<u128, Score> = HashMap::new();
        std::mem::swap(&mut self.cache, &mut cache);
        proof {
            lemma_unpacked_insert(cache@, (mover, other), eval);
        }
        cache.insert(BoardCache::packed(mover, other), eval);
        proof {
            lemma_unpacked_insert(cache@, (other, mover), rest);
        }
        cache.insert(BoardCache::packed(other, mover), rest);  // switched colors, pessimistic eval approximation (due to draws)
        proof {
            lemma_unpacked_insert(cache@, (mirrored_mover, mirrored_other), eval);
        }
        cache.insert(BoardCache::packed(mirrored_mover, mirrored_other), eval);
        proof {
            lemma_unpacked_insert(cache@, (mirrored_other, mirrored_mover), rest);
        }
        cache.insert(BoardCache::packed(mirrored_other, mirrored_mover), rest);
        std::mem::swap(&mut self.cache, &mut cache);
    }

    /// The value remembered for exactly this position, if there is one.
    pub fn get(&self, board: &Board) -> (r: Option<&Score>)
        ensures
            match r {
                Some(eval) => self@.contains_key(key_of(board@)) && *eval == self@[key_of(board@)]
                    && eval.is_probability(),
                None => !self@.contains_key(key_of(board@)),
            },
    {
        broadcast use vstd::std_specs::hash::group_hash_axioms;

        proof {
            use_type_invariant(self);
        }

        let (mover, other) = BoardCache::key(board);
        let key = BoardCache::packed(mover, other);
        self.cache.get(&key)
    }

    /// The mask turned left to right: walks the cells of `src` from the last
    /// of the top row down to the first of the bottom row, and those of the
    /// target row by row from the first to the last.
    pub fn mirror(src: u64) -> (target: u64)
        ensures
            target == mirror_of(src),
            forall|col: int, row: int|
                on_grid(col, row) ==> #[trigger] has_cell(target, col, row) == has_cell(
                    src,
                    6 - col,
                    row,
                ),
            target & !GRID == 0,
    {
        let mut src_mask = 1u64 << (6 + 8 * 5);
        let mut target_mask = 1u64 << (8 * 5);
        let mut target = 0u64;
        proof {
            lemma_mirror_start(src);
        }
        for row in 0..6u64
            invariant
                src_mask == (1u64 << 46) >> ((8 * row) as u64),
                row < 6 ==> target_mask == 1u64 << ((40 - 8 * row) as u64),
                target == mirror_of(src) & settled_cells(row, 0),
        {
            for column in 0..7u64
                invariant
                    row < 6,
                    src_mask == (1u64 << 46) >> ((8 * row + column) as u64),
                    target_mask == 1u64 << ((40 - 8 * row + column) as u64),
                    target == mirror_of(src) & settled_cells(row, column),
            {
                proof {
                    lemma_mirror_step(src, target, row, column);
                }
                if src & src_mask != 0 {
                    target |= target_mask;
                }
                src_mask >>= 1;
                target_mask <<= 1;
            }
            proof {
                lemma_mirror_row(src, row);
            }
            src_mask >>= 1;
            target_mask >>= 15;
        }
        proof {
            lemma_mirror_row(src, 5);
            mirror_turns_columns(src);
        }
        target
    }
}

proof fn lemma_mirror_cell(x: u64, c: u64, r: u64)
    by (bit_vector)
    requires
        c < 7,
        r < 6,
    ensures
        (mirror_of(x) & bit((r * 8 + c) as u64) != 0) == (x & bit((r * 8 + (6 - c)) as u64) != 0),
{
}

proof fn lemma_mirror_bits(x: u64)
    by (bit_vector)
    ensures
        mirror_of(x) & !GRID == 0,
        mirror_of(mirror_of(x)) == x & GRID,
        x & !GRID == 0 ==> x & GRID == x,
        mirror_of(1) == 1u64 << 6,
{
}

/// The mirror image holds the cell `(col, row)` exactly when the mask holds
/// the cell `(6 - col, row)`, and it holds nothing outside the grid.
pub proof fn mirror_turns_columns(x: u64)
    ensures
        forall|col: int, row: int|
            on_grid(col, row) ==> #[trigger] has_cell(mirror_of(x), col, row) == has_cell(
                x,
                6 - col,
                row,
            ),
        mirror_of(x) & !GRID == 0,
{
    assert forall|col: int, row: int| on_grid(col, row) implies #[trigger] has_cell(
        mirror_of(x),
        col,
        row,
    ) == has_cell(x, 6 - col, row) by {
        lemma_mirror_cell(x, col as u64, row as u64);
    }
    lemma_mirror_bits(x);
}

/// The mirror is its own inverse on every mask that lies on the grid, and it
/// takes the first cell of the bottom row to the last one.
pub proof fn mirror_twice(x: u64)
    requires
        x & !GRID == 0,
    ensures
        mirror_of(mirror_of(x)) == x,
        mirror_of(1) == 1u64 << 6,
{
    lemma_mirror_bits(x);
}

/// After a value was stored for a position, all four keys are in the cache.
/// The mirrored position with the players swapped has what is left of the
/// whole. The mirrored position has the value, the position with the players
/// swapped what is left, and the position itself the value, each unless its
/// key is also one of those that were written after it with the other value.
/// No other key has changed.
pub proof fn store_then_get(m: Map<(u64, u64), Score>, key: (u64, u64), eval: Score)
    requires
        eval.is_probability(),
    ensures
        ({
            let after = stored(m, key, eval);
            let rest = Score { ppm: (1_000_000 - eval.ppm) as i64 };
            let swapped = (key.1, key.0);
            let mirrored = (mirror_of(key.0), mirror_of(key.1));
            let both = (mirror_of(key.1), mirror_of(key.0));
            &&& after.contains_key(key) && after.contains_key(swapped) && after.contains_key(
                mirrored,
            ) && after.contains_key(both)
            &&& after[both] == rest
            &&& mirrored != both ==> after[mirrored] == eval
            &&& swapped != mirrored ==> after[swapped] == rest
            &&& key != swapped && key != both ==> after[key] == eval
            &&& forall|other: (u64, u64)|
                other != key && other != swapped && other != mirrored && other != both ==> (
                after.contains_key(other) == m.contains_key(other)) && (m.contains_key(other)
                    ==> after[other] == m[other])
        }),
{
}

} // verus!
