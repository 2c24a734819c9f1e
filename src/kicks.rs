use crate::point::Point;
use vstd::prelude::*;

verus! {

pub open spec fn pt(x: int, y: int) -> Point {
    Point { x: x as i8, y: y as i8 }
}

/// The offsets tried, in order, when a J, L, S, T or Z piece in the given
/// rotation state turns a quarter clockwise or counter-clockwise.
pub open spec fn kicks(rotation: u8, counter_clockwise: bool) -> Seq<Point> {
    if rotation % 4 == 0 && !counter_clockwise {
        seq![pt(0, 0), pt(-1, 0), pt(-1, -1), pt(0, 2), pt(-1, 2)]
    } else if rotation % 4 == 0 && counter_clockwise {
        seq![pt(0, 0), pt(1, 0), pt(1, -1), pt(0, 2), pt(1, 2)]
    } else if rotation % 4 == 1 && !counter_clockwise {
        seq![pt(0, 0), pt(1, 0), pt(1, 1), pt(0, -2), pt(1, -2)]
    } else if rotation % 4 == 1 && counter_clockwise {
        seq![pt(0, 0), pt(1, 0), pt(1, 1), pt(0, -2), pt(1, -2)]
    } else if rotation % 4 == 2 && !counter_clockwise {
        seq![pt(0, 0), pt(1, 0), pt(1, -1), pt(0, 2), pt(1, 2)]
    } else if rotation % 4 == 2 && counter_clockwise {
        seq![pt(0, 0), pt(-1, 0), pt(-1, -1), pt(0, 2), pt(-1, 2)]
    } else if rotation % 4 == 3 && !counter_clockwise {
        seq![pt(0, 0), pt(-1, 0), pt(-1, 1), pt(0, -2), pt(-1, -2)]
    } else {
        seq![pt(0, 0), pt(-1, 0), pt(-1, 1), pt(0, -2), pt(-1, -2)]
    }
}

/// The offsets tried, in order, when an I piece in the given rotation state
/// turns a quarter clockwise or counter-clockwise.
pub open spec fn wide_kicks(rotation: u8, counter_clockwise: bool) -> Seq<Point> {
    if rotation % 4 == 0 && !counter_clockwise {
        seq![pt(0, 0), pt(-2, 0), pt(1, 0), pt(-2, 1), pt(1, -2)]
    } else if rotation % 4 == 0 && counter_clockwise {
        seq![pt(0, 0), pt(-1, 0), pt(2, 0), pt(-1, -2), pt(2, 1)]
    } else if rotation % 4 == 1 && !counter_clockwise {
        seq![pt(0, 0), pt(-1, 0), pt(2, 0), pt(-1, -2), pt(2, 1)]
    } else if rotation % 4 == 1 && counter_clockwise {
        seq![pt(0, 0), pt(2, 0), pt(-1, 0), pt(2, -1), pt(-1, 2)]
    } else if rotation % 4 == 2 && !counter_clockwise {
        seq![pt(0, 0), pt(2, 0), pt(-1, 0), pt(2, -1), pt(-1, 2)]
    } else if rotation % 4 == 2 && counter_clockwise {
        seq![pt(0, 0), pt(1, 0), pt(-2, 0), pt(1, 2), pt(-2, -1)]
    } else if rotation % 4 == 3 && !counter_clockwise {
        seq![pt(0, 0), pt(1, 0), pt(-2, 0), pt(1, 2), pt(-2, -1)]
    } else {
        seq![pt(0, 0), pt(-2, 0), pt(1, 0), pt(-2, 1), pt(1, -2)]
    }
}

/// The offsets tried, in order, when a piece in the given rotation state turns
/// half way round.
pub open spec fn half_turn_kicks(rotation: u8) -> Seq<Point> {
    if rotation % 4 == 0 {
        seq![pt(0, 0), pt(0, -1), pt(1, -1), pt(1, -1), pt(1, 0), pt(1, 0)]
    } else if rotation % 4 == 1 {
        seq![pt(0, 0), pt(1, 0), pt(1, -2), pt(1, -1), pt(0, -2), pt(0, -1)]
    } else if rotation % 4 == 2 {
        seq![pt(0, 0), pt(0, 1), pt(1, 1), pt(1, 1), pt(1, 0), pt(1, 0)]
    } else {
        seq![pt(0, 0), pt(1, 0), pt(1, -2), pt(1, -1), pt(0, -2), pt(0, -1)]
    }
}

pub(crate) fn kick_row(rotation: u8, counter_clockwise: bool) -> (r: [Point; 5])
    ensures
        r@ == kicks(rotation, counter_clockwise),
{
    let r = match (rotation % 4, counter_clockwise) {
        (0, false) => [
            Point::constant(0, 0),
            Point::constant(-1, 0),
            Point::constant(-1, -1),
            Point::constant(0, 2),
            Point::constant(-1, 2),
        ],
        (0, true) => [
            Point::constant(0, 0),
            Point::constant(1, 0),
            Point::constant(1, -1),
            Point::constant(0, 2),
            Point::constant(1, 2),
        ],
        (1, false) => [
            Point::constant(0, 0),
            Point::constant(1, 0),
            Point::constant(1, 1),
            Point::constant(0, -2),
            Point::constant(1, -2),
        ],
        (1, true) => [
            Point::constant(0, 0),
            Point::constant(1, 0),
            Point::constant(1, 1),
            Point::constant(0, -2),
            Point::constant(1, -2),
        ],
        (2, false) => [
            Point::constant(0, 0),
            Point::constant(1, 0),
            Point::constant(1, -1),
            Point::constant(0, 2),
            Point::constant(1, 2),
        ],
        (2, true) => [
            Point::constant(0, 0),
            Point::constant(-1, 0),
            Point::constant(-1, -1),
            Point::constant(0, 2),
            Point::constant(-1, 2),
        ],
        (3, false) => [
            Point::constant(0, 0),
            Point::constant(-1, 0),
            Point::constant(-1, 1),
            Point::constant(0, -2),
            Point::constant(-1, -2),
        ],
        _ => [
            Point::constant(0, 0),
            Point::constant(-1, 0),
            Point::constant(-1, 1),
            Point::constant(0, -2),
            Point::constant(-1, -2),
        ],
    };
    assert(r@ =~= kicks(rotation, counter_clockwise));
    r
}

pub(crate) fn wide_kick_row(rotation: u8, counter_clockwise: bool) -> (r: [Point; 5])
    ensures
        r@ == wide_kicks(rotation, counter_clockwise),
{
    let r = match (rotation % 4, counter_clockwise) {
        (0, false) => [
            Point::constant(0, 0),
            Point::constant(-2, 0),
            Point::constant(1, 0),
            Point::constant(-2, 1),
            Point::constant(1, -2),
        ],
        (0, true) => [
            Point::constant(0, 0),
            Point::constant(-1, 0),
            Point::constant(2, 0),
            Point::constant(-1, -2),
            Point::constant(2, 1),
        ],
        (1, false) => [
            Point::constant(0, 0),
            Point::constant(-1, 0),
            Point::constant(2, 0),
            Point::constant(-1, -2),
            Point::constant(2, 1),
        ],
        (1, true) => [
            Point::constant(0, 0),
            Point::constant(2, 0),
            Point::constant(-1, 0),
            Point::constant(2, -1),
            Point::constant(-1, 2),
        ],
        (2, false) => [
            Point::constant(0, 0),
            Point::constant(2, 0),
            Point::constant(-1, 0),
            Point::constant(2, -1),
            Point::constant(-1, 2),
        ],
        (2, true) => [
            Point::constant(0, 0),
            Point::constant(1, 0),
            Point::constant(-2, 0),
            Point::constant(1, 2),
            Point::constant(-2, -1),
        ],
        (3, false) => [
            Point::constant(0, 0),
            Point::constant(1, 0),
            Point::constant(-2, 0),
            Point::constant(1, 2),
            Point::constant(-2, -1),
        ],
        _ => [
            Point::constant(0, 0),
            Point::constant(-2, 0),
            Point::constant(1, 0),
            Point::constant(-2, 1),
            Point::constant(1, -2),
        ],
    };
    assert(r@ =~= wide_kicks(rotation, counter_clockwise));
    r
}

pub(crate) fn half_turn_kick_row(rotation: u8) -> (r: [Point; 6])
    ensures
        r@ == half_turn_kicks(rotation),
{
    let r = match rotation % 4 {
        0 => [
            Point::constant(0, 0),
            Point::constant(0, -1),
            Point::constant(1, -1),
            Point::constant(1, -1),
            Point::constant(1, 0),
            Point::constant(1, 0),
        ],
        1 => [
            Point::constant(0, 0),
            Point::constant(1, 0),
            Point::constant(1, -2),
            Point::constant(1, -1),
            Point::constant(0, -2),
            Point::constant(0, -1),
        ],
        2 => [
            Point::constant(0, 0),
            Point::constant(0, 1),
            Point::constant(1, 1),
            Point::constant(1, 1),
            Point::constant(1, 0),
            Point::constant(1, 0),
        ],
        _ => [
            Point::constant(0, 0),
            Point::constant(1, 0),
            Point::constant(1, -2),
            Point::constant(1, -1),
            Point::constant(0, -2),
            Point::constant(0, -1),
        ],
    };
    assert(r@ =~= half_turn_kicks(rotation));
    r
}

} // verus!
