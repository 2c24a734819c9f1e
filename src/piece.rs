use crate::colour::Colour;
use vstd::prelude::*;

verus! {

/// The seven kinds of piece.
#[derive(Clone, Copy, Debug, PartialEq, Eq, Structural)]
pub enum PieceType {
    I,
    J,
    L,
    O,
    S,
    T,
    Z,
}

pub open spec fn kind_colour(kind: PieceType) -> Colour {
    match kind {
        PieceType::I => Colour::Cyan,
        PieceType::J => Colour::Blue,
        PieceType::L => Colour::Orange,
        PieceType::O => Colour::Yellow,
        PieceType::S => Colour::Green,
        PieceType::T => Colour::Purple,
        PieceType::Z => Colour::Red,
    }
}

impl PieceType {
    pub fn colour(&self) -> (r: Colour)
        ensures
            r == kind_colour(*self),
    {
        match self {
            PieceType::I => Colour::Cyan,
            PieceType::J => Colour::Blue,
            PieceType::L => Colour::Orange,
            PieceType::O => Colour::Yellow,
            PieceType::S => Colour::Green,
            PieceType::T => Colour::Purple,
            PieceType::Z => Colour::Red,
        }
    }
}

/// A 4×4 grid of cells, row by row: the cell in column `x` and row `y` is at
/// index `4 * y + x`.
#[derive(Clone, Copy, Debug, PartialEq, Eq)]
pub struct PieceBody {
    cells: [Colour; 16],
}

impl View for PieceBody {
    type V = Seq<Colour>;

    closed spec fn view(&self) -> Seq<Colour> {
        self.cells@
    }
}

/// The shape of each kind in its spawn orientation.
pub open spec fn spawn_cells(kind: PieceType) -> Seq<Colour> {
    let c = kind_colour(kind);
    let n = Colour::Empty;
    match kind {
        PieceType::I => seq![n, n, n, n, c, c, c, c, n, n, n, n, n, n, n, n],
        PieceType::J => seq![n, n, n, n, c, n, n, n, c, c, c, n, n, n, n, n],
        PieceType::L => seq![n, n, n, n, n, n, c, n, c, c, c, n, n, n, n, n],
        PieceType::O => seq![n, n, n, n, n, c, c, n, n, c, c, n, n, n, n, n],
        PieceType::S => seq![n, n, n, n, n, c, c, n, c, c, n, n, n, n, n, n],
        PieceType::T => seq![n, n, n, n, n, c, n, n, c, c, c, n, n, n, n, n],
        PieceType::Z => seq![n, n, n, n, c, c, n, n, n, c, c, n, n, n, n, n],
    }
}

/// Where a clockwise quarter turn of the 3×3 block in rows 1..=3 and columns
/// 0..=2 takes each cell from; row 0 and column 3 stay in place.
pub open spec fn small_turn_source(i: int) -> int {
    if i == 4 {
        12
    } else if i == 5 {
        8
    } else if i == 6 {
        4
    } else if i == 8 {
        13
    } else if i == 10 {
        5
    } else if i == 12 {
        14
    } else if i == 13 {
        10
    } else if i == 14 {
        6
    } else {
        i
    }
}

/// Where a clockwise quarter turn of the whole 4×4 grid takes each cell from.
pub open spec fn wide_turn_source(i: int) -> int {
    12 + i / 4 - 4 * (i % 4)
}

pub open spec fn small_turn(s: Seq<Colour>) -> Seq<Colour> {
    Seq::new(16, |i: int| s[small_turn_source(i)])
}

pub open spec fn wide_turn(s: Seq<Colour>) -> Seq<Colour> {
    Seq::new(16, |i: int| s[wide_turn_source(i)])
}

/// `s` turned clockwise `n` times, by the 3×3 turn or the 4×4 turn.
pub open spec fn turned(s: Seq<Colour>, n: nat, wide: bool) -> Seq<Colour>
    decreases n,
{
    if n == 0 {
        s
    } else if wide {
        turned(wide_turn(s), (n - 1) as nat, wide)
    } else {
        turned(small_turn(s), (n - 1) as nat, wide)
    }
}

/// The cells of a piece of the given kind in the given rotation state: the O
/// piece looks the same in every state, the I piece turns within its 4×4 grid
/// and the others within the 3×3 block at its lower left.
pub open spec fn body_cells(kind: PieceType, rotation: u8) -> Seq<Colour> {
    let r = (rotation % 4) as nat;
    match kind {
        PieceType::O => spawn_cells(kind),
        PieceType::I => turned(spawn_cells(kind), r, true),
        _ => turned(spawn_cells(kind), r, false),
    }
}

impl PieceBody {
    pub fn block(&self, x: usize, y: usize) -> (r: Colour)
        requires
            x < 4,
            y < 4,
        ensures
            r == self@[4 * y + x],
    {
        self.cells[4 * y + x]
    }

    fn spawn(kind: PieceType) -> (r: PieceBody)
        ensures
            r@ == spawn_cells(kind),
    {
        let c = kind.colour();
        let n = Colour::Empty;
        let cells = match kind {
            PieceType::I => [n, n, n, n, c, c, c, c, n, n, n, n, n, n, n, n],
            PieceType::J => [n, n, n, n, c, n, n, n, c, c, c, n, n, n, n, n],
            PieceType::L => [n, n, n, n, n, n, c, n, c, c, c, n, n, n, n, n],
            PieceType::O => [n, n, n, n, n, c, c, n, n, c, c, n, n, n, n, n],
            PieceType::S => [n, n, n, n, n, c, c, n, c, c, n, n, n, n, n, n],
            PieceType::T => [n, n, n, n, n, c, n, n, c, c, c, n, n, n, n, n],
            PieceType::Z => [n, n, n, n, c, c, n, n, n, c, c, n, n, n, n, n],
        };
        let r = PieceBody { cells };
        assert(r@ =~= spawn_cells(kind));
        r
    }
}

/// Turns the 3×3 block at the lower left of `shape` clockwise `rotations` times.
pub fn rotate(shape: PieceBody, rotations: usize) -> (r: PieceBody)
    ensures
        r@ == turned(shape@, rotations as nat, false),
    decreases rotations,
{
    if rotations > 0 {
        let s = shape.cells;
        let cells = [
            s[0], s[1], s[2], s[3],
            s[12], s[8], s[4], s[7],
            s[13], s[9], s[5], s[11],
            s[14], s[10], s[6], s[15],
        ];
        let next = PieceBody { cells };
        assert(next@ =~= small_turn(shape@));
        rotate(next, rotations - 1)
    } else {
        shape
    }
}

/// Turns the whole 4×4 grid of `shape` clockwise `rotations` times.
fn rotate_wide(shape: PieceBody, rotations: usize) -> (r: PieceBody)
    ensures
        r@ == turned(shape@, rotations as nat, true),
    decreases rotations,
{
    if rotations > 0 {
        let s = shape.cells;
        let cells = [
            s[12], s[8], s[4], s[0],
            s[13], s[9], s[5], s[1],
            s[14], s[10], s[6], s[2],
            s[15], s[11], s[7], s[3],
        ];
        let next = PieceBody { cells };
        assert(next@ =~= wide_turn(shape@));
        rotate_wide(next, rotations - 1)
    } else {
        shape
    }
}

/// The four rotation states of a shape that turns within its 3×3 block.
pub fn rotations(shape: PieceBody) -> (r: [PieceBody; 4])
    ensures
        forall|i: int| 0 <= i < 4 ==> (#[trigger] r@[i])@ == turned(shape@, i as nat, false),
{
    let r = [rotate(shape, 0), rotate(shape, 1), rotate(shape, 2), rotate(shape, 3)];
    r
}

/// A piece: its kind and its rotation state, counted in clockwise quarter turns
/// from the spawn orientation.
#[derive(Clone, Copy, Debug, PartialEq, Eq, Structural)]
pub struct Piece {
    pub kind: PieceType,
    pub rotation: u8,
}

impl Piece {
    /// A rotation state is one of 0, 1, 2, 3.
    pub open spec fn wf(self) -> bool {
        self.rotation < 4
    }

    /// This piece turned clockwise by `turns` quarter turns.
    pub open spec fn rotated(self, turns: int) -> Piece {
        Piece { kind: self.kind, rotation: ((self.rotation + turns) % 4) as u8 }
    }

    /// The occupied cells of this piece in its 4×4 grid.
    pub open spec fn cells(self) -> Seq<Colour> {
        body_cells(self.kind, self.rotation)
    }

    pub fn new(kind: PieceType) -> (r: Self)
        ensures
            r == (Piece { kind, rotation: 0 }),
    {
        Piece { kind, rotation: 0 }
    }

    pub fn blocks(&self) -> (r: PieceBody)
        ensures
            r@ == self.cells(),
    {
        let spawn = PieceBody::spawn(self.kind);
        let r = (self.rotation % 4) as usize;
        match self.kind {
            PieceType::O => spawn,
            PieceType::I => rotate_wide(spawn, r),
            _ => rotate(spawn, r),
        }
    }

    pub fn kind(&self) -> (r: PieceType)
        ensures
            r == self.kind,
    {
        self.kind
    }

    pub fn colour(&self) -> (r: Colour)
        ensures
            r == kind_colour(self.kind),
    {
        self.kind.colour()
    }

    pub fn rotation(&self) -> (r: u8)
        ensures
            r == self.rotation,
    {
        self.rotation
    }

    /// Never fails: rotation states are counted modulo 4.
    pub fn rotate(&self, turns: u8) -> (r: Self)
        requires
            self.wf(),
        ensures
            r == self.rotated(turns as int),
            r.wf(),
    {
        let sum: u8 = self.rotation.wrapping_add(turns);
        assert(sum as int % 4 == (self.rotation + turns) % 4) by {
            assert(sum as int == (self.rotation + turns) % 256);
        }
        Piece { kind: self.kind, rotation: sum % 4 }
    }
}

/// Four quarter turns bring every piece in a valid rotation state back to
/// itself.
pub proof fn lemma_four_turns_identity(p: Piece)
    requires
        p.wf(),
    ensures
        p.rotated(4) == p,
{
}

} // verus!
