//! The value of a position: a share of games won, in millionths.

use vstd::prelude::*;

verus! {

/// One whole, in millionths.
pub const WHOLE: i64 = 1_000_000;

/// A share of games, counted in millionths of a whole. The shares from 0 to 1
/// are the probabilities; the search also uses -1 and 2 as bounds that no
/// probability reaches.
#[derive(Copy, Clone, Debug, PartialEq, Eq, Structural)]
pub struct Score {
    pub ppm: i64,
}

/// The share `wins` out of `games` in millionths, rounded down; a half where
/// no game was played.
pub open spec fn share(wins: int, games: int) -> int {
    if games == 0 {
        500_000
    } else {
        wins * 1_000_000 / games
    }
}

impl Score {
    /// Whether the score lies between 0 and 1.
    pub open spec fn is_probability(self) -> bool {
        0 <= self.ppm <= WHOLE
    }

    /// The value of a won game: 1.
    pub fn win() -> (r: Score)
        ensures
            r.ppm == WHOLE,
    {
        Score { ppm: WHOLE }
    }

    /// The value of a lost game: 0.
    pub fn loss() -> (r: Score)
        ensures
            r.ppm == 0,
    {
        Score { ppm: 0 }
    }

    /// The value of a drawn game: a half.
    pub fn draw() -> (r: Score)
        ensures
            r.ppm == 500_000,
    {
        Score { ppm: 500_000 }
    }

    /// A bound below every probability: -1.
    pub fn lowest() -> (r: Score)
        ensures
            r.ppm == -WHOLE,
    {
        Score { ppm: -WHOLE }
    }

    /// A bound above every probability: 2.
    pub fn highest() -> (r: Score)
        ensures
            r.ppm == 2 * WHOLE,
    {
        Score { ppm: 2 * WHOLE }
    }

    /// The share of `wins` among `games`; a half where no game was played.
    pub fn of_games(wins: u32, games: u32) -> (r: Score)
        requires
            wins <= games,
        ensures
            r.ppm == share(wins as int, games as int),
            r.is_probability(),
    {
        if games == 0 {
            Score::draw()
        } else {
            let scaled: u64 = wins as u64 * 1_000_000;
            let ppm: u64 = scaled / games as u64;
            assert(ppm <= 1_000_000) by (nonlinear_arith)
                requires
                    ppm == (wins * 1_000_000) / (games as int),
                    0 <= wins <= games,
                    games > 0,
            ;
            Score { ppm: ppm as i64 }
        }
    }

    /// What is left of the whole: the share of the games that were not won.
    pub fn complement(self) -> (r: Score)
        requires
            self.is_probability(),
        ensures
            r.ppm == WHOLE - self.ppm,
            r.is_probability(),
    {
        Score { ppm: WHOLE - self.ppm }
    }

    /// The larger of two scores.
    pub fn max(self, other: Score) -> (r: Score)
        ensures
            r.ppm == if self.ppm >= other.ppm {
                self.ppm
            } else {
                other.ppm
            },
    {
        if self.ppm >= other.ppm {
            self
        } else {
            other
        }
    }

    /// The smaller of two scores.
    pub fn min(self, other: Score) -> (r: Score)
        ensures
            r.ppm == if self.ppm <= other.ppm {
                self.ppm
            } else {
                other.ppm
            },
    {
        if self.ppm <= other.ppm {
            self
        } else {
            other
        }
    }
}

} // verus!
