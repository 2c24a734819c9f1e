use crate::bag::Bag;
use crate::board::{
    drawn_since, extends, outcome_in_range, ticked, tick_draws, Board, TickResult, TickType,
};
use crate::colour::Colour;
use crate::input::Input;
use crate::piece::Piece;
use crate::point::Point;
use crate::score::{has_room, scored, Score};
use vstd::prelude::*;

verus! {

/// When a game ends.
#[derive(Clone, Copy, Debug, PartialEq, Eq, Structural)]
pub enum GameMode {
    /// Only when the board tops out.
    Marathon,
    /// Once a number of lines are cleared.
    Lines,
    /// Once a number of seconds have passed.
    Time,
}

pub open spec fn mode_code(m: GameMode) -> u8 {
    match m {
        GameMode::Marathon => 0,
        GameMode::Lines => 1,
        GameMode::Time => 2,
    }
}

impl GameMode {
    /// The mode with the given code, if there is one.
    pub fn new(t: u8) -> (r: Result<Self, ()>)
        ensures
            t <= 2 <==> r is Ok,
            r matches Ok(m) ==> mode_code(m) == t,
    {
        match t {
            0 => Ok(GameMode::Marathon),
            1 => Ok(GameMode::Lines),
            2 => Ok(GameMode::Time),
            _ => Err(()),
        }
    }

    pub fn code(&self) -> (r: u8)
        ensures
            r == mode_code(*self),
    {
        match self {
            GameMode::Marathon => 0,
            GameMode::Lines => 1,
            GameMode::Time => 2,
        }
    }
}

/// A mode with its target: lines for `Lines`, seconds for `Time`.
#[derive(Clone, Copy, Debug, PartialEq, Eq, Structural)]
pub struct GameType {
    pub mode: GameMode,
    pub count: u64,
}

impl GameType {
    pub fn new(mode: GameMode, count: u64) -> (r: Self)
        ensures
            r == (GameType { mode, count }),
    {
        GameType { mode, count }
    }

    pub fn new_marathon() -> (r: Self)
        ensures
            r == (GameType { mode: GameMode::Marathon, count: 0 }),
    {
        GameType { mode: GameMode::Marathon, count: 0 }
    }

    pub fn new_lines(lines: u64) -> (r: Self)
        ensures
            r == (GameType { mode: GameMode::Lines, count: lines }),
    {
        GameType { mode: GameMode::Lines, count: lines }
    }

    pub fn new_timed(seconds: u64) -> (r: Self)
        ensures
            r == (GameType { mode: GameMode::Time, count: seconds }),
    {
        GameType { mode: GameMode::Time, count: seconds }
    }

    pub fn lines(&self) -> (r: u64)
        ensures
            r == self.count,
    {
        self.count
    }

    pub fn time(&self) -> (r: u64)
        ensures
            r == self.count,
    {
        self.count
    }

    pub fn mode(&self) -> (r: GameMode)
        ensures
            r == self.mode,
    {
        self.mode
    }
}

/// What the game reports for a board result `r` at `tick`, with `s` the score
/// after it: the board's game over stands; otherwise a reached line or time
/// target turns the result into a game over.
pub open spec fn judged(kind: GameType, s: Score, r: TickResult, tick: u128) -> TickResult {
    let over = TickResult { kind: TickType::GameOver, ..r };
    if r.kind == TickType::GameOver {
        r
    } else {
        match kind.mode {
            GameMode::Time => if tick / 1000 >= kind.count {
                over
            } else {
                r
            },
            GameMode::Lines => if s.lines >= kind.count {
                over
            } else {
                r
            },
            GameMode::Marathon => r,
        }
    }
}

/// `after` is `before` after one tick with `input` at `tick`, reporting `r`:
/// the board moved as `ticked` says, given the randomizer's next kind and the
/// kinds drawn meanwhile, the
/// board's result was scored unless it was a game over, and `r` is that result
/// judged by the termination rule.
pub open spec fn game_ticked(before: Game, after: Game, input: Input, tick: u128, r: TickResult) -> bool {
    let draws = drawn_since(before.board_spec().bag_spec(), after.board_spec().bag_spec());
    let bag = before.board_spec().bag_spec();
    let (state, res) = ticked(before.board_spec()@, input, tick, bag.window()[bag.cursor()], draws);
    &&& extends(before.board_spec().bag_spec(), after.board_spec().bag_spec())
    &&& draws.len() == tick_draws(before.board_spec()@, input, tick, bag.window()[bag.cursor()])
    &&& after.board_spec()@ == state
    &&& after.score_spec() == if res.kind == TickType::GameOver {
        before.score_spec()
    } else {
        scored(before.score_spec(), res)
    }
    &&& after.kind_spec() == before.kind_spec()
    &&& r == judged(before.kind_spec(), after.score_spec(), res, tick)
}

/// A board with its score and its termination rule.
#[derive(Clone)]
pub struct Game {
    board: Board,
    score: Score,
    kind: GameType,
}

impl Game {
    pub closed spec fn board_spec(&self) -> Board {
        self.board
    }

    pub closed spec fn score_spec(&self) -> Score {
        self.score
    }

    pub closed spec fn kind_spec(&self) -> GameType {
        self.kind
    }

    /// The board is in play and the score has room for another lock.
    pub open spec fn wf(&self) -> bool {
        self.board_spec().wf() && has_room(self.score_spec())
    }

    pub fn new(bag: Bag, kind: GameType) -> (r: Self)
        requires
            bag.wf(),
        ensures
            r.wf(),
            r.kind_spec() == kind,
            r.score_spec() == (Score { score: 0, lines: 0 }),
            r.board_spec()@.grid == crate::board::empty_grid(),
            r.board_spec()@.piece == (Piece { kind: bag.window()[bag.cursor()], rotation: 0 }),
            extends(bag, r.board_spec().bag_spec()),
    {
        Game { board: Board::new(bag), score: Score::new(), kind }
    }

    fn process_tick(&mut self, res: TickResult, tick: u128) -> (r: TickResult)
        requires
            outcome_in_range(res),
            has_room(old(self).score),
        ensures
            final(self).board == old(self).board,
            final(self).kind == old(self).kind,
            final(self).score == if res.kind == TickType::GameOver {
                old(self).score
            } else {
                scored(old(self).score, res)
            },
            r == judged(old(self).kind, final(self).score, res, tick),
    {
        if res.kind == TickType::GameOver {
            return res;
        }
        self.score.update(res);
        match self.kind.mode {
            GameMode::Time => {
                if tick / 1000 >= self.kind.count as u128 {
                    TickResult::new(TickType::GameOver, res.piece, res.lines)
                } else {
                    res
                }
            },
            GameMode::Lines => {
                if self.score.lines >= self.kind.count {
                    TickResult::new(TickType::GameOver, res.piece, res.lines)
                } else {
                    res
                }
            },
            GameMode::Marathon => res,
        }
    }

    /// One tick of the board, scored and judged by the termination rule.
    pub fn tick(&mut self, input: Input, tick: u128) -> (r: TickResult)
        requires
            old(self).wf(),
        ensures
            game_ticked(*old(self), *final(self), input, tick, r),
            final(self).board_spec().inv(),
            r.kind != TickType::GameOver ==> final(self).board_spec().wf(),
    {
        let res = self.board.tick(input, tick);
        self.process_tick(res, tick)
    }

    pub fn board(&self) -> (r: &Board)
        ensures
            *r == self.board_spec(),
    {
        &self.board
    }

    pub fn blocks(&self) -> (r: &Vec<[Colour; 10]>)
        ensures
            r@.map_values(|row: [Colour; 10]| row@) == self.board_spec()@.grid,
    {
        self.board.blocks()
    }

    pub fn block(&self, x: usize, y: usize) -> (r: Colour)
        requires
            self.board_spec()@.grid.len() == 45,
            x < 10,
            y < 45,
        ensures
            r == self.board_spec()@.grid[y as int][x as int],
    {
        self.board.block(x, y)
    }

    pub fn piece(&self) -> (r: Piece)
        ensures
            r == self.board_spec()@.piece,
    {
        self.board.piece()
    }

    pub fn position(&self) -> (r: Point)
        ensures
            r == self.board_spec()@.position,
    {
        self.board.position()
    }

    pub fn held(&self) -> (r: Option<Piece>)
        ensures
            r == self.board_spec()@.held,
    {
        self.board.held()
    }

    pub fn peek(&self, i: usize) -> (r: Piece)
        requires
            self.board_spec().bag_spec().wf(),
        ensures
            r == (Piece {
                kind: self.board_spec().bag_spec().window()[(self.board_spec().bag_spec().cursor() + i)
                    % 7],
                rotation: 0,
            }),
    {
        self.board.peek(i)
    }

    pub fn score(&self) -> (r: Score)
        ensures
            r == self.score_spec(),
    {
        self.score
    }

    pub fn kind(&self) -> (r: GameType)
        ensures
            r == self.kind_spec(),
    {
        self.kind
    }
}

} // verus!
