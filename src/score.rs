use crate::board::{TickResult, TickType};
use crate::piece::PieceType;
use vstd::prelude::*;

verus! {

/// The points a lock earns, by the scoring table.
pub open spec fn points(r: TickResult) -> int {
    match r.kind {
        TickType::Clear => if r.lines == 1 {
            100
        } else if r.lines == 2 {
            300
        } else if r.lines == 3 {
            500
        } else {
            800
        },
        TickType::Spin => if r.piece == PieceType::T {
            if r.lines == 0 {
                100
            } else if r.lines == 1 {
                800
            } else if r.lines == 2 {
                1200
            } else {
                1600
            }
        } else {
            if r.lines == 0 {
                0
            } else if r.lines == 1 {
                100
            } else if r.lines == 2 {
                300
            } else {
                500
            }
        },
        _ => 0,
    }
}

/// The lines a lock counts.
pub open spec fn cleared_lines(r: TickResult) -> int {
    match r.kind {
        TickType::Clear | TickType::Spin => r.lines as int,
        _ => 0,
    }
}

/// The results that can be scored: a plain tick or a game over (nothing), a
/// clear of one to four lines, or a spin of up to three.
pub open spec fn scorable(r: TickResult) -> bool {
    match r.kind {
        TickType::Nothing => true,
        TickType::Clear => 1 <= r.lines <= 4,
        TickType::Spin => r.lines <= 3,
        TickType::GameOver => true,
    }
}

/// Points and cleared lines so far.
#[derive(Clone, Copy, Debug, PartialEq, Eq, Structural)]
pub struct Score {
    pub score: u64,
    pub lines: u64,
}

/// `s` after scoring `r`.
pub open spec fn scored(s: Score, r: TickResult) -> Score {
    Score {
        score: (s.score + points(r)) as u64,
        lines: (s.lines + cleared_lines(r)) as u64,
    }
}

/// Room for one more lock in both counters.
pub open spec fn has_room(s: Score) -> bool {
    s.score <= u64::MAX - 1600 && s.lines <= u64::MAX - 4
}

impl Score {
    pub fn new() -> (r: Self)
        ensures
            r == (Score { score: 0, lines: 0 }),
    {
        Score { score: 0, lines: 0 }
    }

    pub fn score(&self) -> (r: u64)
        ensures
            r == self.score,
    {
        self.score
    }

    pub fn lines(&self) -> (r: u64)
        ensures
            r == self.lines,
    {
        self.lines
    }

    /// Adds the points and lines of one tick's result.
    pub fn update(&mut self, tick: TickResult)
        requires
            scorable(tick),
            has_room(*old(self)),
        ensures
            *final(self) == scored(*old(self), tick),
            final(self).score >= old(self).score,
            final(self).lines >= old(self).lines,
    {
        let (lines, score): (u64, u64) = match tick.kind {
            TickType::Nothing => (0, 0),
            TickType::Clear => match tick.lines {
                1 => (1, 100),
                2 => (2, 300),
                3 => (3, 500),
                _ => (4, 800),
            },
            TickType::Spin => match tick.piece {
                PieceType::T => match tick.lines {
                    0 => (0, 100),
                    1 => (1, 800),
                    2 => (2, 1200),
                    _ => (3, 1600),
                },
                _ => match tick.lines {
                    0 => (0, 0),
                    1 => (1, 100),
                    2 => (2, 300),
                    _ => (3, 500),
                },
            },
            TickType::GameOver => (0, 0),
        };
        self.score = self.score + score;
        self.lines = self.lines + lines;
    }
}

impl Default for Score {
    fn default() -> (r: Self)
        ensures
            r == (Score { score: 0, lines: 0 }),
    {
        Score::new()
    }
}

} // verus!
