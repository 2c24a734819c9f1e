use crate::bag::Bag;
use crate::board::{TickResult, TickType};
use crate::game::{game_ticked, Game, GameType};
use crate::input::Input;
use crate::replay::{recorded, Recorder};
use crate::score::{has_room, Score};
use vstd::prelude::*;

verus! {

/// A live session: the game, the recorder that follows it, and whether it
/// has ended.
pub struct Session {
    game: Game,
    recorder: Recorder,
    over: bool,
    last_tick: u128,
}

impl Session {
    pub closed spec fn game_spec(&self) -> Game {
        self.game
    }

    pub closed spec fn recorder_spec(&self) -> Recorder {
        self.recorder
    }

    pub closed spec fn over_spec(&self) -> bool {
        self.over
    }

    /// The latest tick seen: the start, then each tick passed to `advance`.
    pub closed spec fn last_tick_spec(&self) -> u128 {
        self.last_tick
    }

    /// The recorder is well formed and its last frame is no later than the
    /// latest tick, and until the session ends its board is in play.
    pub open spec fn wf(&self) -> bool {
        &&& self.recorder_spec().wf()
        &&& self.over_spec() || self.game_spec().board_spec().wf()
        &&& self.recorder_spec().last_frame_spec() <= self.last_tick_spec()
    }

    /// A session of the given kind, with a randomizer from `seed`, started at
    /// `now`.
    pub fn new(seed: u64, kind: GameType, now: u128) -> (r: Self)
        ensures
            r.wf(),
            !r.over_spec(),
            r.game_spec().kind_spec() == kind,
            r.game_spec().score_spec() == (Score { score: 0, lines: 0 }),
            r.recorder_spec().seed_spec() == seed,
            r.recorder_spec().kind_spec() == kind,
            r.recorder_spec().start_spec() == now,
            r.recorder_spec().last_frame_spec() == now,
            r.last_tick_spec() == now,
    {
        let game = Game::new(Bag::new(seed), kind);
        let recorder = Recorder::new(seed, now, &game);
        Session { game, recorder, over: false, last_tick: now }
    }

    /// Records `input` at `tick` and runs one tick of the game; nothing once
    /// the session has ended, which it does at the first game over. Ticks come
    /// strictly after the start and after one another, so that every input
    /// replays at its own tick.
    pub fn advance(&mut self, tick: u128, input: Input) -> (r: Option<TickResult>)
        requires
            old(self).wf(),
            old(self).last_tick_spec() < tick,
            old(self).over_spec() || has_room(old(self).game_spec().score_spec()),
        ensures
            final(self).wf(),
            old(self).over_spec() ==> r is None && final(self).game_spec() == old(self).game_spec()
                && final(self).recorder_spec() == old(self).recorder_spec()
                && final(self).over_spec(),
            !old(self).over_spec() ==> final(self).last_tick_spec() == tick,
            !old(self).over_spec() ==> (r matches Some(t) && recorded(
                old(self).recorder_spec(),
                final(self).recorder_spec(),
                input,
                tick,
            ) && game_ticked(old(self).game_spec(), final(self).game_spec(), input, tick, t)
                && final(self).over_spec() == (t.kind == TickType::GameOver)),
    {
        if self.over {
            return None;
        }
        self.recorder.record(input, tick);
        self.last_tick = tick;
        let r = self.game.tick(input, tick);
        if r.kind == TickType::GameOver {
            self.over = true;
        }
        Some(r)
    }

    pub fn game(&self) -> (r: &Game)
        ensures
            *r == self.game_spec(),
    {
        &self.game
    }

    pub fn last_tick(&self) -> (r: u128)
        ensures
            r == self.last_tick_spec(),
    {
        self.last_tick
    }

    pub fn is_over(&self) -> (r: bool)
        ensures
            r == self.over_spec(),
    {
        self.over
    }

    /// When the last frame was recorded.
    pub fn last_frame(&self) -> (r: u128)
        ensures
            r == self.recorder_spec().last_frame_spec(),
    {
        self.recorder.last_frame()
    }

    /// The whole recording of the session as bytes, with its final score.
    pub fn finish(self, username: &str, duration: u64, end_time: i64) -> (r: Vec<u8>)
        ensures
            r@ == crate::replay::encoded(
                vstd::string::StringSliceAdditionalSpecFns::spec_bytes(username),
                self.recorder_spec().kind_spec(),
                self.game_spec().score_spec(),
                duration,
                self.recorder_spec().seed_spec(),
                end_time,
                self.recorder_spec().frames_spec(),
            ),
    {
        let score = self.game.score();
        self.recorder.raw(username, score, duration, end_time)
    }
}

} // verus!
