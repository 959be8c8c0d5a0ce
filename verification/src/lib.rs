//! A decision engine for the gravity-drop four-in-a-row game on the 7 x 6 grid.
//!
//! The grid is held as two bitboards, searched by iterative-deepening alpha-beta
//! whose leaves are valued by randomized playouts and remembered in a cache
//! that knows the two symmetries of the game.

use vstd::prelude::*;

pub mod board;
pub mod cache;
pub mod exhaustive;
pub mod grid;
pub mod lines;
pub mod minmax;
pub mod monte_carlo;
pub mod move_list;
pub mod score;
pub mod time;

verus! {

/// A column of the grid, `0` (leftmost) to `6`.
pub type Column = u8;

/// The columns in the order in which moves are tried: the centre first, then outward.
pub const COLUMNS: [Column; 7] = [3, 2, 4, 1, 5, 0, 6];

/// One of the two players.
#[derive(Copy, Clone, Debug, PartialEq, Eq, Structural)]
pub enum Color {
    Red,
    Blue,
}

impl Color {
    /// The other player.
    pub open spec fn other(self) -> Color {
        match self {
            Color::Red => Color::Blue,
            Color::Blue => Color::Red,
        }
    }

    /// The other player.
    pub fn switch(self) -> (r: Color)
        ensures
            r == self.other(),
    {
        match self {
            Color::Red => Color::Blue,
            Color::Blue => Color::Red,
        }
    }
}

} // verus!
