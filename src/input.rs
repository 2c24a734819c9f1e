use vstd::prelude::*;

verus! {

/// Sideways movement asked for in one tick.
#[derive(Clone, Copy, Debug, PartialEq, Eq, Structural)]
pub enum InputDirection {
    Neutral,
    Left,
    Right,
    SnapLeft,
    SnapRight,
}

/// Rotation asked for in one tick, in clockwise quarter turns.
#[derive(Clone, Copy, Debug, PartialEq, Eq, Structural)]
pub enum InputRotation {
    Neutral,
    Quarter,
    TwoQuarter,
    ThreeQuarter,
}

/// Everything the player asks for in one tick.
#[derive(Clone, Copy, Debug, PartialEq, Eq, Structural)]
pub struct Input {
    pub hold: bool,
    pub quit: bool,
    pub hard_drop: bool,
    pub soft_drop: bool,
    pub rotation: InputRotation,
    pub direction: InputDirection,
}

/// The input of a tick in which nothing is asked for.
pub open spec fn idle_input() -> Input {
    Input {
        hold: false,
        quit: false,
        hard_drop: false,
        soft_drop: false,
        rotation: InputRotation::Neutral,
        direction: InputDirection::Neutral,
    }
}

impl Input {
    pub fn new(
        hold: bool,
        quit: bool,
        hard_drop: bool,
        soft_drop: bool,
        rotation: InputRotation,
        direction: InputDirection,
    ) -> (r: Self)
        ensures
            r == (Input { hold, quit, hard_drop, soft_drop, rotation, direction }),
    {
        Input { hold, quit, hard_drop, soft_drop, rotation, direction }
    }

    pub fn idle() -> (r: Self)
        ensures
            r == idle_input(),
    {
        Input {
            hold: false,
            quit: false,
            hard_drop: false,
            soft_drop: false,
            rotation: InputRotation::Neutral,
            direction: InputDirection::Neutral,
        }
    }

    pub fn is_idle(&self) -> (r: bool)
        ensures
            r == (*self == idle_input()),
    {
        !self.hold && !self.quit && !self.hard_drop && !self.soft_drop && match self.rotation {
            InputRotation::Neutral => true,
            _ => false,
        } && match self.direction {
            InputDirection::Neutral => true,
            _ => false,
        }
    }
}

impl Default for Input {
    fn default() -> (r: Self)
        ensures
            r == idle_input(),
    {
        Input::idle()
    }
}

} // verus!
