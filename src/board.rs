use crate::bag::Bag;
use crate::colour::Colour;
use crate::input::{Input, InputDirection, InputRotation};
use crate::kicks::{
    half_turn_kick_row, half_turn_kicks, kick_row, kicks, pt, wide_kick_row, wide_kicks,
};
use crate::piece::{spawn_cells, turned, Piece, PieceType};
use crate::point::Point;
use vstd::prelude::*;
use vstd::string::StrSliceExecFns;

verus! {

pub const BOARD_WIDTH: usize = 10;

/// Rows above the visible field are included, so that pieces can spawn and
/// kick upwards without a ceiling.
pub const BOARD_HEIGHT: usize = 45;

/// What a tick did.
#[derive(Clone, Copy, Debug, PartialEq, Eq, Structural)]
pub enum TickType {
    Nothing,
    Clear,
    Spin,
    GameOver,
}

/// The outcome of one tick: what happened, the kind of piece concerned and
/// the number of lines cleared.
#[derive(Clone, Copy, Debug, PartialEq, Eq, Structural)]
pub struct TickResult {
    pub kind: TickType,
    pub piece: PieceType,
    pub lines: u8,
}

impl TickResult {
    pub fn new(kind: TickType, piece: PieceType, lines: u8) -> (r: Self)
        ensures
            r == (TickResult { kind, piece, lines }),
    {
        TickResult { kind, piece, lines }
    }

    pub fn kind(&self) -> (r: TickType)
        ensures
            r == self.kind,
    {
        self.kind
    }

    pub fn piece(&self) -> (r: PieceType)
        ensures
            r == self.piece,
    {
        self.piece
    }

    pub fn lines(&self) -> (r: u8)
        ensures
            r == self.lines,
    {
        self.lines
    }
}

/// The state of a board, apart from its randomizer.
pub struct BoardState {
    /// Rows from the top down.
    pub grid: Seq<Seq<Colour>>,
    pub piece: Piece,
    pub position: Point,
    pub held: Option<Piece>,
    pub may_hold: bool,
    pub contact: u8,
    /// Whether the last successful move of the active piece was a rotation.
    pub last_rot: bool,
}

pub open spec fn in_grid(x: int, y: int) -> bool {
    0 <= x < 10 && 0 <= y < 45
}

pub open spec fn filled(grid: Seq<Seq<Colour>>, x: int, y: int) -> bool {
    grid[y][x] != Colour::Empty
}

/// The cell in column `bx` and row `by` of the piece's 4×4 grid is occupied.
pub open spec fn occupies(piece: Piece, bx: int, by: int) -> bool {
    piece.cells()[4 * by + bx] != Colour::Empty
}

/// Every occupied cell of `piece` placed with its grid's corner at `pos` lies
/// on the board and on an empty cell.
pub open spec fn legal(grid: Seq<Seq<Colour>>, piece: Piece, pos: Point) -> bool {
    forall|bx: int, by: int|
        0 <= bx < 4 && 0 <= by < 4 && #[trigger] occupies(piece, bx, by) ==> in_grid(
            pos.x + bx,
            pos.y + by,
        ) && !filled(grid, pos.x + bx, pos.y + by)
}

/// Every occupied cell of `piece` placed at `pos` lies on the board.
pub open spec fn on_board(piece: Piece, pos: Point) -> bool {
    forall|bx: int, by: int|
        0 <= bx < 4 && 0 <= by < 4 && #[trigger] occupies(piece, bx, by) ==> in_grid(
            pos.x + bx,
            pos.y + by,
        )
}

/// Where every new piece appears.
pub open spec fn spawn_point() -> Point {
    Point { x: 3, y: 24 }
}

/// Every cell of the row is filled.
pub open spec fn full_row(r: Seq<Colour>) -> bool {
    forall|x: int| 0 <= x < 10 ==> #[trigger] r[x] != Colour::Empty
}

pub open spec fn row_full(grid: Seq<Seq<Colour>>, y: int) -> bool {
    full_row(grid[y])
}

pub open spec fn no_full_rows(grid: Seq<Seq<Colour>>) -> bool {
    forall|y: int| 0 <= y < 45 ==> !#[trigger] row_full(grid, y)
}

pub open spec fn down() -> Point {
    Point { x: 0, y: 1 }
}

/// One step by `d` if it leads to a legal position; otherwise nothing changes.
pub open spec fn shifted(v: BoardState, d: Point) -> BoardState {
    if legal(v.grid, v.piece, v.position.spec_plus(d)) {
        BoardState { position: v.position.spec_plus(d), last_rot: false, ..v }
    } else {
        v
    }
}

/// Up to `n` steps by `d`, stopping at the first that is not legal.
pub open spec fn stepped(v: BoardState, d: Point, n: nat) -> BoardState
    decreases n,
{
    if n > 0 && legal(v.grid, v.piece, v.position.spec_plus(d)) {
        stepped(shifted(v, d), d, (n - 1) as nat)
    } else {
        v
    }
}

pub open spec fn moved(v: BoardState, direction: InputDirection) -> BoardState {
    match direction {
        InputDirection::Neutral => v,
        InputDirection::Left => stepped(v, pt(-1, 0), 1),
        InputDirection::Right => stepped(v, pt(1, 0), 1),
        InputDirection::SnapLeft => stepped(v, pt(-1, 0), 10),
        InputDirection::SnapRight => stepped(v, pt(1, 0), 10),
    }
}

/// The piece turned to `target` at the first offset, from the `k`-th on, that
/// gives a legal position; unchanged if there is none.
pub open spec fn kicked(v: BoardState, target: Piece, offsets: Seq<Point>, k: int) -> BoardState
    decreases offsets.len() - k,
{
    if k < 0 || k >= offsets.len() {
        v
    } else if legal(v.grid, target, v.position.spec_plus(offsets[k])) {
        BoardState {
            piece: target,
            position: v.position.spec_plus(offsets[k]),
            last_rot: true,
            ..v
        }
    } else {
        kicked(v, target, offsets, k + 1)
    }
}

pub open spec fn quarter_turned(v: BoardState, counter_clockwise: bool) -> BoardState {
    let target = v.piece.rotated(if counter_clockwise { 3 } else { 1 });
    match v.piece.kind {
        PieceType::O => v,
        PieceType::I => kicked(v, target, wide_kicks(v.piece.rotation, counter_clockwise), 0),
        _ => kicked(v, target, kicks(v.piece.rotation, counter_clockwise), 0),
    }
}

/// A requested rotation; the O piece never turns and never kicks.
pub open spec fn turned_state(v: BoardState, rotation: InputRotation) -> BoardState {
    match rotation {
        InputRotation::Neutral => v,
        InputRotation::Quarter => quarter_turned(v, false),
        InputRotation::ThreeQuarter => quarter_turned(v, true),
        InputRotation::TwoQuarter => if v.piece.kind == PieceType::O {
            v
        } else {
            kicked(v, v.piece.rotated(2), half_turn_kicks(v.piece.rotation), 0)
        },
    }
}

/// The kind a hold brings in: the held piece's, or else `next`, the kind the
/// randomizer gives next.
pub open spec fn incoming(v: BoardState, next: PieceType) -> PieceType {
    match v.held {
        Some(h) => h.kind,
        None => next,
    }
}

/// A hold is taken when none was taken since the last lock and the incoming
/// piece fits at the spawn point; otherwise it is declined.
pub open spec fn hold_taken(v: BoardState, next: PieceType) -> bool {
    v.may_hold && legal(v.grid, Piece { kind: incoming(v, next), rotation: 0 }, spawn_point())
}

/// Whether holding draws a kind from the randomizer.
pub open spec fn hold_draws(v: BoardState, next: PieceType) -> bool {
    hold_taken(v, next) && v.held is None
}

/// The active piece set aside: the incoming piece takes its place at the
/// spawn point; no further hold until the next lock. A declined hold changes
/// nothing.
pub open spec fn held_state(v: BoardState, next: PieceType) -> BoardState {
    if !hold_taken(v, next) {
        v
    } else {
        BoardState {
            held: Some(Piece { kind: v.piece.kind, rotation: 0 }),
            piece: Piece { kind: incoming(v, next), rotation: 0 },
            position: spawn_point(),
            may_hold: false,
            last_rot: false,
            ..v
        }
    }
}

/// Up to `n` steps down.
pub open spec fn fallen(v: BoardState, n: nat) -> BoardState {
    stepped(v, down(), n)
}

/// The left or right neighbour of the cell is off the board or filled.
pub open spec fn side_blocked(grid: Seq<Seq<Colour>>, x: int, y: int) -> bool {
    x == 0 || x >= 9 || filled(grid, x - 1, y) || filled(grid, x + 1, y)
}

/// Among the first `k` cells of the active piece's grid, row by row, the
/// number that are occupied and have a blocked side.
pub open spec fn blocked_sides(v: BoardState, k: int) -> int
    decreases k,
{
    if k <= 0 {
        0
    } else {
        let bx = (k - 1) % 4;
        let by = (k - 1) / 4;
        blocked_sides(v, k - 1) + if occupies(v.piece, bx, by) && side_blocked(
            v.grid,
            v.position.x + bx,
            v.position.y + by,
        ) {
            1int
        } else {
            0int
        }
    }
}

pub open spec fn corner_blocked(grid: Seq<Seq<Colour>>, x: int, y: int) -> bool {
    !in_grid(x, y) || filled(grid, x, y)
}

/// How many of the four diagonal neighbours of the centre of a T piece's
/// 3×3 block are off the board or filled.
pub open spec fn blocked_corners(v: BoardState) -> int {
    let cx = v.position.x + 1;
    let cy = v.position.y + 2;
    (if corner_blocked(v.grid, cx + 1, cy - 1) { 1int } else { 0int }) + (if corner_blocked(
        v.grid,
        cx + 1,
        cy + 1,
    ) {
        1int
    } else {
        0int
    }) + (if corner_blocked(v.grid, cx - 1, cy + 1) { 1int } else { 0int }) + (if corner_blocked(
        v.grid,
        cx - 1,
        cy - 1,
    ) {
        1int
    } else {
        0int
    })
}

/// A piece that locks right after a rotation is a spin: never for I and O; for
/// T when more than two corners are blocked; for the others when each of
/// their four cells has a blocked side.
pub open spec fn is_spin(v: BoardState) -> bool {
    v.last_rot && match v.piece.kind {
        PieceType::I | PieceType::O => false,
        PieceType::T => blocked_corners(v) > 2,
        _ => blocked_sides(v, 16) == 4,
    }
}

/// The grid with the first `k` cells of the piece's grid, row by row, written
/// where they are occupied.
pub open spec fn stamped_upto(grid: Seq<Seq<Colour>>, piece: Piece, pos: Point, k: int) -> Seq<
    Seq<Colour>,
>
    decreases k,
{
    if k <= 0 {
        grid
    } else {
        let g = stamped_upto(grid, piece, pos, k - 1);
        let bx = (k - 1) % 4;
        let by = (k - 1) / 4;
        if occupies(piece, bx, by) {
            g.update(pos.y + by, g[pos.y + by].update(pos.x + bx, piece.cells()[4 * by + bx]))
        } else {
            g
        }
    }
}

pub open spec fn stamped(grid: Seq<Seq<Colour>>, piece: Piece, pos: Point) -> Seq<Seq<Colour>> {
    stamped_upto(grid, piece, pos, 16)
}

/// The rows from `y` down that are not full, in order.
pub open spec fn kept_rows(grid: Seq<Seq<Colour>>, y: int) -> Seq<Seq<Colour>>
    decreases 45 - y,
{
    if y < 0 || y >= 45 {
        seq![]
    } else if row_full(grid, y) {
        kept_rows(grid, y + 1)
    } else {
        seq![grid[y]] + kept_rows(grid, y + 1)
    }
}

pub open spec fn empty_row() -> Seq<Colour> {
    Seq::new(10, |x: int| Colour::Empty)
}

pub open spec fn full_row_count(grid: Seq<Seq<Colour>>) -> int {
    45 - kept_rows(grid, 0).len()
}

/// Full rows removed, the rest shifted down, empty rows added on top.
pub open spec fn cleared_grid(grid: Seq<Seq<Colour>>) -> Seq<Seq<Colour>> {
    Seq::new(full_row_count(grid) as nat, |i: int| empty_row()) + kept_rows(grid, 0)
}

/// Locking the active piece: it is written onto the grid and the next piece,
/// `draw`, appears at the spawn point. If that spot is taken the game is over;
/// otherwise full rows are cleared and the lock is classified.
pub open spec fn locked(v: BoardState, draw: PieceType) -> (BoardState, TickResult) {
    let spin = is_spin(v);
    let g = stamped(v.grid, v.piece, v.position);
    let fresh = Piece { kind: draw, rotation: 0 };
    let base = BoardState {
        grid: g,
        piece: fresh,
        position: spawn_point(),
        may_hold: true,
        contact: 0,
        last_rot: false,
        held: v.held,
    };
    if !legal(g, fresh, spawn_point()) {
        (base, TickResult { kind: TickType::GameOver, piece: v.piece.kind, lines: 0 })
    } else {
        let n = full_row_count(g);
        let kind = if spin {
            TickType::Spin
        } else if n == 0 {
            TickType::Nothing
        } else {
            TickType::Clear
        };
        (BoardState { grid: cleared_grid(g), ..base }, TickResult { kind, piece: v.piece.kind, lines: n as u8 })
    }
}

/// The line counts that a tick can report: none for a plain tick or a game
/// over, one to four for a clear, up to three for a spin.
pub open spec fn outcome_in_range(r: TickResult) -> bool {
    match r.kind {
        TickType::Nothing => r.lines == 0,
        TickType::Clear => 1 <= r.lines <= 4,
        TickType::Spin => r.lines <= 3,
        TickType::GameOver => r.lines == 0,
    }
}

/// Movement, rotation, hold, then a hard drop (which locks) or a soft drop.
/// `next` is the kind the randomizer gives next; `draws` are the kinds taken
/// from it, in order.
pub open spec fn after_input(v: BoardState, input: Input, next: PieceType, draws: Seq<PieceType>) -> (BoardState, TickResult) {
    let a = turned_state(moved(v, input.direction), input.rotation);
    let b = if input.hold { held_state(a, next) } else { a };
    let used: int = if input.hold && hold_draws(a, next) { 1 } else { 0 };
    if input.hard_drop {
        locked(fallen(b, 64), draws[used])
    } else {
        let c = if input.soft_drop { shifted(b, down()) } else { b };
        (c, TickResult { kind: TickType::Nothing, piece: c.piece.kind, lines: 0 })
    }
}

/// How many kinds one tick takes from the randomizer.
pub open spec fn input_draws(v: BoardState, input: Input, next: PieceType) -> int {
    let a = turned_state(moved(v, input.direction), input.rotation);
    (if input.hold && hold_draws(a, next) { 1int } else { 0int }) + (if input.hard_drop { 1int } else { 0int })
}

/// Gravity every 500 ticks.
pub open spec fn after_gravity(v: BoardState, tick: u128) -> BoardState {
    if tick % 500 == 0 { shifted(v, down()) } else { v }
}

/// Every 50 ticks the lock-delay counter counts up while the piece rests and
/// restarts while it can fall.
pub open spec fn after_contact(v: BoardState, tick: u128) -> BoardState {
    if tick % 50 == 0 {
        let c = if legal(v.grid, v.piece, v.position.spec_plus(down())) { 0 } else { v.contact + 1 };
        BoardState { contact: c as u8, ..v }
    } else {
        v
    }
}

/// One tick. A quit ends the game at once and changes nothing; when the
/// lock delay runs out the piece locks and the input is ignored.
pub open spec fn ticked(v: BoardState, input: Input, tick: u128, next: PieceType, draws: Seq<PieceType>) -> (BoardState, TickResult) {
    if input.quit {
        (v, TickResult { kind: TickType::GameOver, piece: v.piece.kind, lines: 0 })
    } else {
        let w = after_contact(after_gravity(v, tick), tick);
        if w.contact == 30 {
            locked(w, draws[0])
        } else {
            after_input(w, input, next, draws)
        }
    }
}

pub open spec fn tick_draws(v: BoardState, input: Input, tick: u128, next: PieceType) -> int {
    if input.quit {
        0
    } else {
        let w = after_contact(after_gravity(v, tick), tick);
        if w.contact == 30 { 1 } else { input_draws(w, input, next) }
    }
}

/// Every piece has an occupied cell near the middle of its grid, so a legal
/// position lies close to the board.
proof fn lemma_piece_core(p: Piece)
    requires
        p.wf(),
    ensures
        p.kind == PieceType::I && p.rotation < 2 ==> occupies(p, 2, 1),
        p.kind == PieceType::I && p.rotation >= 2 ==> occupies(p, 1, 2),
        p.kind != PieceType::I ==> occupies(p, 1, 2),
{
    reveal_with_fuel(turned, 4);
    let s = spawn_cells(p.kind);
    if p.kind == PieceType::I {
        let t1 = crate::piece::wide_turn(s);
        let t2 = crate::piece::wide_turn(t1);
        let t3 = crate::piece::wide_turn(t2);
        assert(t1[6] == s[5]);
        assert(t2[9] == t1[10]);
        assert(t1[10] == s[6]);
        assert(t3[9] == t2[10]);
        assert(t2[10] == t1[6]);
    } else if p.kind != PieceType::O {
        let t1 = crate::piece::small_turn(s);
        let t2 = crate::piece::small_turn(t1);
        let t3 = crate::piece::small_turn(t2);
        assert(t1[9] == s[9]);
        assert(t2[9] == t1[9]);
        assert(t3[9] == t2[9]);
    }
}

/// A J, L, S, T or Z piece, and an O piece, never occupies the top row of its
/// grid.
proof fn lemma_top_row_empty(p: Piece, bx: int)
    requires
        p.wf(),
        p.kind != PieceType::I,
        0 <= bx < 4,
    ensures
        !occupies(p, bx, 0),
{
    reveal_with_fuel(turned, 4);
    let s = spawn_cells(p.kind);
    if p.kind != PieceType::O {
        let t1 = crate::piece::small_turn(s);
        let t2 = crate::piece::small_turn(t1);
        let t3 = crate::piece::small_turn(t2);
        assert(t1[bx] == s[bx]);
        assert(t2[bx] == t1[bx]);
        assert(t3[bx] == t2[bx]);
    }
}

proof fn lemma_anchored(grid: Seq<Seq<Colour>>, p: Piece, pos: Point)
    requires
        p.wf(),
        legal(grid, p, pos) || pos == spawn_point(),
    ensures
        -2 <= pos.x <= 9,
        -2 <= pos.y <= 43,
{
    lemma_piece_core(p);
    if p.kind == PieceType::I && p.rotation < 2 {
        assert(occupies(p, 2, 1));
    } else {
        assert(occupies(p, 1, 2));
    }
}

proof fn lemma_anchored_on_board(p: Piece, pos: Point)
    requires
        p.wf(),
        on_board(p, pos),
    ensures
        -3 <= pos.x <= 9,
        -3 <= pos.y <= 44,
{
    lemma_piece_core(p);
    if p.kind == PieceType::I && p.rotation < 2 {
        assert(occupies(p, 2, 1));
    } else {
        assert(occupies(p, 1, 2));
    }
}

/// A placement is refused when an occupied cell of the piece lies off the
/// board or on a filled cell.
pub proof fn lemma_legal_rejects(grid: Seq<Seq<Colour>>, piece: Piece, pos: Point, bx: int, by: int)
    requires
        0 <= bx < 4,
        0 <= by < 4,
        occupies(piece, bx, by),
        !in_grid(pos.x + bx, pos.y + by) || filled(grid, pos.x + bx, pos.y + by),
    ensures
        !legal(grid, piece, pos),
{
}

proof fn lemma_stepped_down_rests(v: BoardState, n: nat)
    requires
        v.piece.wf(),
        -2 <= v.position.y <= 44,
        n >= 45 - v.position.y,
    ensures
        !legal(
            stepped(v, down(), n).grid,
            stepped(v, down(), n).piece,
            stepped(v, down(), n).position.spec_plus(down()),
        ),
    decreases n,
{
    let next = v.position.spec_plus(down());
    if legal(v.grid, v.piece, next) {
        lemma_anchored(v.grid, v.piece, next);
        lemma_stepped_down_rests(shifted(v, down()), (n - 1) as nat);
    }
}

/// A hard drop lands: afterwards the piece can fall no further.
pub proof fn lemma_hard_drop_lands(v: BoardState)
    requires
        v.piece.wf(),
        legal(v.grid, v.piece, v.position) || v.position == spawn_point(),
    ensures
        !legal(fallen(v, 64).grid, fallen(v, 64).piece, fallen(v, 64).position.spec_plus(down())),
{
    lemma_anchored(v.grid, v.piece, v.position);
    lemma_stepped_down_rests(v, 64);
}

/// Every piece at the spawn point lies on the board.
proof fn lemma_spawn_on_board(p: Piece)
    ensures
        on_board(p, spawn_point()),
{
}

/// `after` holds every kind drawn by `before`, and perhaps more.
pub open spec fn extends(before: Bag, after: Bag) -> bool {
    after.drawn().len() >= before.drawn().len() && after.drawn().subrange(
        0,
        before.drawn().len() as int,
    ) == before.drawn()
}

/// The kinds drawn by `after` since it was `before`.
pub open spec fn drawn_since(before: Bag, after: Bag) -> Seq<PieceType> {
    after.drawn().subrange(before.drawn().len() as int, after.drawn().len() as int)
}

proof fn lemma_extends_trans(a: Bag, b: Bag, c: Bag)
    requires
        extends(a, b),
        extends(b, c),
    ensures
        extends(a, c),
        drawn_since(a, c) == drawn_since(a, b) + drawn_since(b, c),
{
    assert(c.drawn().subrange(0, a.drawn().len() as int) =~= a.drawn()) by {
        assert(c.drawn().subrange(0, a.drawn().len() as int) =~= c.drawn().subrange(
            0,
            b.drawn().len() as int,
        ).subrange(0, a.drawn().len() as int));
    }
    assert(drawn_since(a, c) =~= drawn_since(a, b) + drawn_since(b, c));
}

/// Writing the first `k` cells of a piece leaves alone every row that none of
/// them lies on.
proof fn lemma_stamp_keeps_row(grid: Seq<Seq<Colour>>, p: Piece, pos: Point, k: int, y: int)
    requires
        0 <= k <= 16,
        grid.len() == 45,
        0 <= y < 45,
        on_board(p, pos),
        forall|j: int| 0 <= j < k && #[trigger] occupies(p, j % 4, j / 4) ==> pos.y + j / 4 != y,
    ensures
        stamped_upto(grid, p, pos, k).len() == 45,
        stamped_upto(grid, p, pos, k)[y] == grid[y],
    decreases k,
{
    if k > 0 {
        lemma_stamp_keeps_row(grid, p, pos, k - 1, y);
        if occupies(p, (k - 1) % 4, (k - 1) / 4) {
            assert(in_grid(pos.x + (k - 1) % 4, pos.y + (k - 1) / 4));
        }
    }
}

/// The rows from `y` down that are kept are none of them full, and of the
/// rows from `y` down that are full there are no more than lie in `lo..=hi`.
proof fn lemma_kept_rows(grid: Seq<Seq<Colour>>, y: int, lo: int, hi: int)
    requires
        0 <= y <= 45,
        forall|z: int| y <= z < 45 && #[trigger] row_full(grid, z) ==> lo <= z <= hi,
    ensures
        kept_rows(grid, y).len() <= 45 - y,
        forall|i: int| 0 <= i < kept_rows(grid, y).len() ==> !full_row(#[trigger] kept_rows(grid, y)[i]),
        45 - y - kept_rows(grid, y).len() <= if hi < lo || hi < y {
            0
        } else if lo < y {
            hi - y + 1
        } else {
            hi - lo + 1
        },
    decreases 45 - y,
{
    if y < 45 {
        lemma_kept_rows(grid, y + 1, lo, hi);
        let rest = kept_rows(grid, y + 1);
        if !row_full(grid, y) {
            assert forall|i: int| 0 <= i < kept_rows(grid, y).len() implies !full_row(
                #[trigger] kept_rows(grid, y)[i],
            ) by {
                if i > 0 {
                    assert(kept_rows(grid, y)[i] == rest[i - 1]);
                }
            }
        }
    }
}

fn blank_row() -> (r: [Colour; 10])
    ensures
        r@ == empty_row(),
{
    let e = Colour::Empty;
    let r = [e, e, e, e, e, e, e, e, e, e];
    assert(r@ =~= empty_row());
    r
}

/// Locking a piece onto a grid without full rows fills at most four rows, at
/// most three for any piece but I, and clearing leaves no full row.
proof fn lemma_lock_bounds(g0: Seq<Seq<Colour>>, p: Piece, pos: Point)
    requires
        p.wf(),
        on_board(p, pos),
        g0.len() == 45,
        no_full_rows(g0),
    ensures
        0 <= full_row_count(stamped(g0, p, pos)) <= 4,
        p.kind != PieceType::I ==> full_row_count(stamped(g0, p, pos)) <= 3,
        no_full_rows(cleared_grid(stamped(g0, p, pos))),
{
    let g = stamped(g0, p, pos);
    let lo = pos.y + if p.kind == PieceType::I { 0int } else { 1int };
    let hi = pos.y + 3;
    assert forall|z: int| 0 <= z < 45 && #[trigger] row_full(g, z) implies lo <= z <= hi by {
        if !(lo <= z <= hi) {
            assert forall|j: int| 0 <= j < 16 && #[trigger] occupies(p, j % 4, j / 4) implies pos.y + j
                / 4 != z by {
                if p.kind != PieceType::I && j / 4 == 0 {
                    lemma_top_row_empty(p, j % 4);
                }
            }
            lemma_stamp_keeps_row(g0, p, pos, 16, z);
            assert(!row_full(g0, z));
        }
    }
    lemma_kept_rows(g, 0, lo, hi);
    let kept = kept_rows(g, 0);
    let n = full_row_count(g);
    let c = cleared_grid(g);
    assert forall|y: int| 0 <= y < 45 implies !#[trigger] row_full(c, y) by {
        if y < n {
            assert(c[y] == empty_row());
            assert(!(empty_row()[0] != Colour::Empty));
        } else {
            assert(c[y] == kept[y - n]);
        }
    }
}

pub open spec fn empty_grid() -> Seq<Seq<Colour>> {
    Seq::new(45, |y: int| empty_row())
}

/// The grid drawn by `rows`, one string per row, placed at the bottom of the
/// board: a cell is filled (grey) where its character is not a space.
pub open spec fn grid_of_rows(rows: Seq<Seq<char>>) -> Seq<Seq<Colour>> {
    let offset = 45 - rows.len();
    Seq::new(
        45,
        |y: int|
            if y < offset {
                empty_row()
            } else {
                Seq::new(
                    10,
                    |x: int|
                        if rows[y - offset][x] == ' ' {
                            Colour::Empty
                        } else {
                            Colour::Grey
                        },
                )
            },
    )
}

/// A line without the carriage return that may end it.
pub open spec fn without_cr(l: Seq<char>) -> Seq<char> {
    if l.len() > 0 && l.last() == '\r' {
        l.drop_last()
    } else {
        l
    }
}

/// The lines completed by the first `i` characters of `s`, each ended by a
/// newline, and where the line under way starts.
pub open spec fn lines_upto(s: Seq<char>, i: int) -> (Seq<Seq<char>>, int)
    decreases i,
{
    if i <= 0 {
        (seq![], 0)
    } else {
        let (done, start) = lines_upto(s, i - 1);
        if s[i - 1] == '\n' {
            (done.push(without_cr(s.subrange(start, i - 1))), i)
        } else {
            (done, start)
        }
    }
}

/// The lines of `s`, as `str::lines` gives them: split at newlines, a
/// carriage return before a newline dropped, no empty line after a final
/// newline.
pub open spec fn lines_of(s: Seq<char>) -> Seq<Seq<char>> {
    let (done, start) = lines_upto(s, s.len() as int);
    if start < s.len() {
        done.push(without_cr(s.subrange(start, s.len() as int)))
    } else {
        done
    }
}

/// Row `y` of `grid`, left and right exchanged.
pub open spec fn mirrored(grid: Seq<Seq<Colour>>) -> Seq<Seq<Colour>> {
    Seq::new(grid.len(), |y: int| Seq::new(10, |x: int| grid[y][9 - x]))
}

/// The board: a grid of 45 rows of 10 cells, the active piece with its
/// position, the held piece, and the lock-delay and hold state.
#[derive(Clone)]
pub struct Board {
    bag: Bag,
    board: Vec<[Colour; 10]>,
    held: Option<Piece>,
    piece: Piece,
    contact: u8,
    may_hold: bool,
    position: Point,
    last_input_rot: bool,
}

impl View for Board {
    type V = BoardState;

    closed spec fn view(&self) -> BoardState {
        BoardState {
            grid: self.board@.map_values(|r: [Colour; 10]| r@),
            piece: self.piece,
            position: self.position,
            held: self.held,
            may_hold: self.may_hold,
            contact: self.contact,
            last_rot: self.last_input_rot,
        }
    }
}

impl Board {
    pub const WIDTH: usize = BOARD_WIDTH;

    pub const HEIGHT: usize = BOARD_HEIGHT;

    pub closed spec fn bag_spec(&self) -> Bag {
        self.bag
    }

    /// The structure every board keeps: a 45-row grid, a valid active piece
    /// that is either legally placed or at the spawn point, a lock-delay
    /// counter below 30 and a well-formed randomizer.
    pub closed spec fn inv(&self) -> bool {
        self.placed() && self.contact < 30
    }

    /// The structure apart from the lock-delay counter.
    pub closed spec fn placed(&self) -> bool {
        &&& self.board@.len() == 45
        &&& self.piece.wf()
        &&& legal(self@.grid, self.piece, self.position) || self.position == spawn_point()
        &&& self.bag.wf()
    }

    /// A board in play: its structure holds and no row is full.
    pub closed spec fn wf(&self) -> bool {
        self.inv() && no_full_rows(self@.grid)
    }

    proof fn lemma_grid_shape(&self)
        requires
            self.board@.len() == 45,
        ensures
            self@.grid.len() == 45,
            forall|y: int| 0 <= y < 45 ==> (#[trigger] self@.grid[y]).len() == 10,
            forall|y: int| 0 <= y < 45 ==> #[trigger] self@.grid[y] == self.board@[y]@,
    {
    }

    /// Whether `piece` fits at `position`: every occupied cell on the board
    /// and on an empty cell.
    pub fn legal_position(&self, piece: Piece, position: Point) -> (r: bool)
        requires
            self@.grid.len() == 45,
            position.x <= 124,
            position.y <= 124,
        ensures
            r == legal(self@.grid, piece, position),
    {
        proof {
            self.lemma_grid_shape();
        }
        let blocks = piece.blocks();
        let mut k: usize = 0;
        while k < 16
            invariant
                k <= 16,
                blocks@ == piece.cells(),
                self.board@.len() == 45,
                position.x <= 124,
                position.y <= 124,
                forall|j: int|
                    0 <= j < k && #[trigger] occupies(piece, j % 4, j / 4) ==> in_grid(
                        position.x + j % 4,
                        position.y + j / 4,
                    ) && !filled(self@.grid, position.x + j % 4, position.y + j / 4),
            decreases 16 - k,
        {
            let bx = k % 4;
            let by = k / 4;
            let c = blocks.block(bx, by);
            if !c.is_empty() {
                let x: i8 = position.x + bx as i8;
                let y: i8 = position.y + by as i8;
                if x < 0 || x >= 10 || y < 0 || y >= 45 {
                    assert(occupies(piece, k as int % 4, k as int / 4));
                    return false;
                }
                let row = self.board[y as usize];
                if !row[x as usize].is_empty() {
                    assert(occupies(piece, k as int % 4, k as int / 4));
                    return false;
                }
            }
            k += 1;
        }
        assert forall|bx: int, by: int|
            0 <= bx < 4 && 0 <= by < 4 && #[trigger] occupies(piece, bx, by) implies in_grid(
            position.x + bx,
            position.y + by,
        ) && !filled(self@.grid, position.x + bx, position.y + by) by {
            let j = 4 * by + bx;
            assert(j % 4 == bx && j / 4 == by);
            assert(occupies(piece, j % 4, j / 4));
        }
        true
    }

    /// Up to `n` steps by `d`, stopping at the first that is not legal.
    fn step(&mut self, d: Point, n: u8)
        requires
            old(self).inv(),
            d == pt(-1, 0) || d == pt(1, 0) || d == down(),
        ensures
            final(self).inv(),
            final(self)@ == stepped(old(self)@, d, n as nat),
            final(self).bag == old(self).bag,
            final(self).board == old(self).board,
            legal(old(self)@.grid, old(self)@.piece, old(self)@.position) ==> legal(
                final(self)@.grid,
                final(self)@.piece,
                final(self)@.position,
            ),
    {
        let mut i: u8 = 0;
        while i < n
            invariant
                i <= n,
                self.inv(),
                d == pt(-1, 0) || d == pt(1, 0) || d == down(),
                self.bag == old(self).bag,
                self.board == old(self).board,
                stepped(old(self)@, d, n as nat) == stepped(self@, d, (n - i) as nat),
                legal(old(self)@.grid, old(self)@.piece, old(self)@.position) ==> legal(
                    self@.grid,
                    self@.piece,
                    self@.position,
                ),
            decreases n - i,
        {
            proof {
                lemma_anchored(self@.grid, self.piece, self.position);
            }
            let candidate = self.position.plus(d);
            if self.legal_position(self.piece, candidate) {
                self.position = candidate;
                self.last_input_rot = false;
                i += 1;
            } else {
                i = n;
            }
        }
    }

    fn move_piece(&mut self, direction: InputDirection)
        requires
            old(self).inv(),
        ensures
            final(self).inv(),
            final(self)@ == moved(old(self)@, direction),
            final(self).bag == old(self).bag,
            final(self).board == old(self).board,
            legal(old(self)@.grid, old(self)@.piece, old(self)@.position) ==> legal(
                final(self)@.grid,
                final(self)@.piece,
                final(self)@.position,
            ),
    {
        match direction {
            InputDirection::Neutral => {},
            InputDirection::Left => self.step(Point::constant(-1, 0), 1),
            InputDirection::Right => self.step(Point::constant(1, 0), 1),
            InputDirection::SnapLeft => self.step(Point::constant(-1, 0), 10),
            InputDirection::SnapRight => self.step(Point::constant(1, 0), 10),
        }
    }

    /// Turns the active piece to `target` at the first offset that gives a
    /// legal position.
    fn try_kicks<const N: usize>(&mut self, target: Piece, offsets: [Point; N])
        requires
            old(self).inv(),
            target.wf(),
            forall|k: int|
                0 <= k < N ==> -2 <= (#[trigger] offsets@[k]).x <= 2 && -2 <= offsets@[k].y <= 2,
        ensures
            final(self).inv(),
            final(self)@ == kicked(old(self)@, target, offsets@, 0),
            final(self).bag == old(self).bag,
            final(self).board == old(self).board,
            legal(old(self)@.grid, old(self)@.piece, old(self)@.position) ==> legal(
                final(self)@.grid,
                final(self)@.piece,
                final(self)@.position,
            ),
    {
        proof {
            lemma_anchored(self@.grid, self.piece, self.position);
        }
        let mut k: usize = 0;
        while k < N
            invariant
                k <= N,
                offsets@.len() == N,
                *self == *old(self),
                self.inv(),
                -2 <= self.position.x <= 9,
                -2 <= self.position.y <= 44,
                target.wf(),
                forall|j: int|
                    0 <= j < N ==> -2 <= (#[trigger] offsets@[j]).x <= 2 && -2 <= offsets@[j].y
                        <= 2,
                kicked(old(self)@, target, offsets@, 0) == kicked(old(self)@, target, offsets@, k as int),
            decreases N - k,
        {
            let candidate = self.position.plus(offsets[k]);
            if self.legal_position(target, candidate) {
                self.position = candidate;
                self.piece = target;
                self.last_input_rot = true;
                return;
            }
            k += 1;
        }
    }

    fn rotate_piece(&mut self, rotation: InputRotation)
        requires
            old(self).inv(),
        ensures
            final(self).inv(),
            final(self)@ == turned_state(old(self)@, rotation),
            final(self).bag == old(self).bag,
            final(self).board == old(self).board,
            legal(old(self)@.grid, old(self)@.piece, old(self)@.position) ==> legal(
                final(self)@.grid,
                final(self)@.piece,
                final(self)@.position,
            ),
    {
        let r = self.piece.rotation;
        match rotation {
            InputRotation::Neutral => {},
            InputRotation::TwoQuarter => {
                if self.piece.kind != PieceType::O {
                    let target = self.piece.rotate(2);
                    self.try_kicks(target, half_turn_kick_row(r));
                }
            },
            InputRotation::Quarter | InputRotation::ThreeQuarter => {
                let ccw = match rotation {
                    InputRotation::ThreeQuarter => true,
                    _ => false,
                };
                let target = self.piece.rotate(if ccw { 3 } else { 1 });
                match self.piece.kind {
                    PieceType::O => {},
                    PieceType::I => self.try_kicks(target, wide_kick_row(r, ccw)),
                    _ => self.try_kicks(target, kick_row(r, ccw)),
                }
            },
        }
    }

    fn test_soft_drop(&self) -> (r: bool)
        requires
            self.inv(),
        ensures
            r == legal(self@.grid, self.piece, self.position.spec_plus(down())),
    {
        proof {
            lemma_anchored(self@.grid, self.piece, self.position);
        }
        self.legal_position(self.piece, self.position.plus(Point::constant(0, 1)))
    }

    fn soft_drop(&mut self)
        requires
            old(self).inv(),
        ensures
            final(self).inv(),
            final(self)@ == shifted(old(self)@, down()),
            final(self).bag == old(self).bag,
            final(self).board == old(self).board,
            legal(old(self)@.grid, old(self)@.piece, old(self)@.position) ==> legal(
                final(self)@.grid,
                final(self)@.piece,
                final(self)@.position,
            ),
    {
        self.step(Point::constant(0, 1), 1);
        proof {
            reveal_with_fuel(stepped, 2);
        }
    }

    fn side_is_blocked(&self, x: i8, y: i8) -> (r: bool)
        requires
            self.board@.len() == 45,
            in_grid(x as int, y as int),
        ensures
            r == side_blocked(self@.grid, x as int, y as int),
    {
        proof {
            self.lemma_grid_shape();
        }
        if x == 0 || x >= 9 {
            return true;
        }
        let row = self.board[y as usize];
        !row[(x - 1) as usize].is_empty() || !row[(x + 1) as usize].is_empty()
    }

    fn corner_is_blocked(&self, x: i8, y: i8) -> (r: bool)
        requires
            self.board@.len() == 45,
        ensures
            r == corner_blocked(self@.grid, x as int, y as int),
    {
        proof {
            self.lemma_grid_shape();
        }
        if x < 0 || x >= 10 || y < 0 || y >= 45 {
            return true;
        }
        let row = self.board[y as usize];
        !row[x as usize].is_empty()
    }

    fn spin_check(&self) -> (r: bool)
        requires
            self.placed(),
        ensures
            r == is_spin(self@),
    {
        if !self.last_input_rot {
            return false;
        }
        proof {
            lemma_anchored(self@.grid, self.piece, self.position);
            lemma_spawn_on_board(self.piece);
        }
        let px = self.position.x;
        let py = self.position.y;
        match self.piece.kind {
            PieceType::I | PieceType::O => false,
            PieceType::T => {
                let mut n: u8 = 0;
                if self.corner_is_blocked(px + 2, py + 1) {
                    n += 1;
                }
                if self.corner_is_blocked(px + 2, py + 3) {
                    n += 1;
                }
                if self.corner_is_blocked(px, py + 3) {
                    n += 1;
                }
                if self.corner_is_blocked(px, py + 1) {
                    n += 1;
                }
                n > 2
            },
            _ => {
                let blocks = self.piece.blocks();
                let mut n: u8 = 0;
                let mut k: usize = 0;
                while k < 16
                    invariant
                        k <= 16,
                        self.placed(),
                        -2 <= px <= 9,
                        -2 <= py <= 44,
                        px == self.position.x,
                        py == self.position.y,
                        blocks@ == self.piece.cells(),
                        on_board(self.piece, self.position),
                        n as int == blocked_sides(self@, k as int),
                        n <= k,
                    decreases 16 - k,
                {
                    let bx = k % 4;
                    let by = k / 4;
                    if !blocks.block(bx, by).is_empty() {
                        assert(occupies(self.piece, bx as int, by as int));
                        if self.side_is_blocked(px + bx as i8, py + by as i8) {
                            n += 1;
                        }
                    }
                    k += 1;
                }
                n == 4
            },
        }
    }

    fn row_is_full(&self, y: usize) -> (r: bool)
        requires
            self.board@.len() == 45,
            y < 45,
        ensures
            r == row_full(self@.grid, y as int),
    {
        proof {
            self.lemma_grid_shape();
        }
        let row = self.board[y];
        let mut x: usize = 0;
        while x < 10
            invariant
                x <= 10,
                row@ == self@.grid[y as int],
                forall|i: int| 0 <= i < x ==> row@[i] != Colour::Empty,
            decreases 10 - x,
        {
            if row[x].is_empty() {
                return false;
            }
            x += 1;
        }
        true
    }

    /// Writes the active piece's cells onto the grid.
    fn stamp(&mut self)
        requires
            old(self).board@.len() == 45,
            old(self).piece.wf(),
            on_board(old(self).piece, old(self).position),
        ensures
            final(self).board@.len() == 45,
            final(self)@.grid == stamped(old(self)@.grid, old(self).piece, old(self).position),
            final(self).piece == old(self).piece,
            final(self).position == old(self).position,
            final(self).held == old(self).held,
            final(self).bag == old(self).bag,
    {
        let blocks = self.piece.blocks();
        let ghost g0 = self@.grid;
        proof {
            lemma_anchored_on_board(self.piece, self.position);
        }
        let mut k: usize = 0;
        while k < 16
            invariant
                k <= 16,
                self.board@.len() == 45,
                blocks@ == self.piece.cells(),
                self.piece == old(self).piece,
                self.position == old(self).position,
                self.held == old(self).held,
                self.bag == old(self).bag,
                on_board(self.piece, self.position),
                -3 <= self.position.x <= 9,
                -3 <= self.position.y <= 44,
                self@.grid == stamped_upto(g0, self.piece, self.position, k as int),
            decreases 16 - k,
        {
            let bx = k % 4;
            let by = k / 4;
            let c = blocks.block(bx, by);
            if !c.is_empty() {
                assert(occupies(self.piece, bx as int, by as int));
                let x = (self.position.x + bx as i8) as usize;
                let y = (self.position.y + by as i8) as usize;
                let ghost before = self@.grid;
                let mut row = self.board[y];
                row[x] = c;
                self.board.set(y, row);
                assert(self@.grid =~= before.update(y as int, before[y as int].update(x as int, c)));
            }
            k += 1;
        }
    }

    /// Removes the full rows; returns how many there were.
    fn clear_lines(&mut self) -> (n: usize)
        requires
            old(self).board@.len() == 45,
        ensures
            final(self).board@.len() == 45,
            final(self)@.grid == cleared_grid(old(self)@.grid),
            n == full_row_count(old(self)@.grid),
            n <= 45,
            final(self).piece == old(self).piece,
            final(self).position == old(self).position,
            final(self).held == old(self).held,
            final(self).bag == old(self).bag,
            final(self).contact == old(self).contact,
            final(self).may_hold == old(self).may_hold,
            final(self).last_input_rot == old(self).last_input_rot,
    {
        let ghost g0 = self@.grid;
        let mut y: usize = 45;
        let mut w: usize = 45;
        while y > 0
            invariant
                y <= w <= 45,
                self.board@.len() == 45,
                self.piece == old(self).piece,
                self.position == old(self).position,
                self.held == old(self).held,
                self.bag == old(self).bag,
                self.contact == old(self).contact,
                self.may_hold == old(self).may_hold,
                self.last_input_rot == old(self).last_input_rot,
                g0 == old(self)@.grid,
                forall|i: int| 0 <= i < y ==> #[trigger] self@.grid[i] == g0[i],
                self@.grid.subrange(w as int, 45) == kept_rows(g0, y as int),
            decreases y,
        {
            y -= 1;
            let full = self.row_is_full(y);
            assert(self@.grid[y as int] == g0[y as int]);
            if !full {
                w -= 1;
                let ghost before = self@.grid;
                let row = self.board[y];
                self.board.set(w, row);
                assert(self@.grid =~= before.update(w as int, g0[y as int]));
                assert(self@.grid.subrange(w as int, 45) =~= seq![g0[y as int]] + before.subrange(
                    w + 1,
                    45,
                ));
            }
        }
        let n = w;
        let mut i: usize = 0;
        while i < n
            invariant
                i <= n <= 45,
                self.board@.len() == 45,
                self.piece == old(self).piece,
                self.position == old(self).position,
                self.held == old(self).held,
                self.bag == old(self).bag,
                self.contact == old(self).contact,
                self.may_hold == old(self).may_hold,
                self.last_input_rot == old(self).last_input_rot,
                self@.grid.subrange(n as int, 45) == kept_rows(g0, 0),
                forall|j: int| 0 <= j < i ==> #[trigger] self@.grid[j] == empty_row(),
            decreases n - i,
        {
            let ghost before = self@.grid;
            self.board.set(i, blank_row());
            assert(self@.grid =~= before.update(i as int, empty_row()));
            assert(self@.grid.subrange(n as int, 45) =~= before.subrange(n as int, 45));
            i += 1;
        }
        assert(self@.grid =~= cleared_grid(g0)) by {
            assert(self@.grid =~= self@.grid.subrange(0, n as int) + self@.grid.subrange(n as int, 45));
            assert(self@.grid.subrange(0, n as int) =~= Seq::new(n as nat, |j: int| empty_row()));
        }
        n
    }

    /// Locks the active piece and brings in the next one.
    fn lock(&mut self) -> (r: TickResult)
        requires
            old(self).placed(),
            no_full_rows(old(self)@.grid),
        ensures
            final(self).inv(),
            r.kind != TickType::GameOver ==> final(self).wf(),
            extends(old(self).bag, final(self).bag),
            drawn_since(old(self).bag, final(self).bag).len() == 1,
            (final(self)@, r) == locked(old(self)@, drawn_since(old(self).bag, final(self).bag)[0]),
            outcome_in_range(r),
    {
        let spin = self.spin_check();
        let piece = self.piece;
        proof {
            lemma_spawn_on_board(self.piece);
            lemma_lock_bounds(self@.grid, self.piece, self.position);
        }
        self.stamp();
        let ghost before = self.bag;
        let next = self.bag.next();
        proof {
            assert(drawn_since(before, self.bag) =~= seq![next]);
            assert(self.bag.drawn().subrange(0, before.drawn().len() as int) =~= before.drawn());
        }
        self.piece = Piece::new(next);
        self.may_hold = true;
        self.position = Point::constant(3, 24);
        self.contact = 0;
        self.last_input_rot = false;
        if self.legal_position(self.piece, self.position) {
            let n = self.clear_lines();
            let lines = n as u8;
            if spin {
                TickResult::new(TickType::Spin, piece.kind, lines)
            } else if n == 0 {
                TickResult::new(TickType::Nothing, piece.kind, 0)
            } else {
                TickResult::new(TickType::Clear, piece.kind, lines)
            }
        } else {
            TickResult::new(TickType::GameOver, piece.kind, 0)
        }
    }

    fn hard_drop(&mut self) -> (r: TickResult)
        requires
            old(self).wf(),
        ensures
            final(self).inv(),
            r.kind != TickType::GameOver ==> final(self).wf(),
            extends(old(self).bag, final(self).bag),
            drawn_since(old(self).bag, final(self).bag).len() == 1,
            (final(self)@, r) == locked(fallen(old(self)@, 64), drawn_since(old(self).bag, final(self).bag)[0]),
            outcome_in_range(r),
    {
        self.step(Point::constant(0, 1), 64);
        self.lock()
    }

    fn input(&mut self, input: Input) -> (r: TickResult)
        requires
            old(self).wf(),
        ensures
            final(self).inv(),
            r.kind != TickType::GameOver ==> final(self).wf(),
            extends(old(self).bag, final(self).bag),
            drawn_since(old(self).bag, final(self).bag).len() == input_draws(
                old(self)@,
                input,
                old(self).bag.window()[old(self).bag.cursor()],
            ),
            (final(self)@, r) == after_input(
                old(self)@,
                input,
                old(self).bag.window()[old(self).bag.cursor()],
                drawn_since(old(self).bag, final(self).bag),
            ),
            drawn_since(old(self).bag, final(self).bag).len() == 0 ==> final(self).bag == old(self).bag,
            !input.hard_drop && legal(old(self)@.grid, old(self)@.piece, old(self)@.position)
                ==> legal(final(self)@.grid, final(self)@.piece, final(self)@.position),
            outcome_in_range(r),
    {
        let ghost next = self.bag.window()[self.bag.cursor()];
        let ghost b0 = self.bag;
        self.move_piece(input.direction);
        self.rotate_piece(input.rotation);
        let ghost a = self@;
        let ghost b1 = self.bag;
        if input.hold {
            self.hold();
        } else {
            assert(self.bag.drawn().subrange(0, self.bag.drawn().len() as int) =~= self.bag.drawn());
        }
        let ghost b2 = self.bag;
        let ghost mid = self@;
        assert(drawn_since(b0, b2) == drawn_since(b1, b2));
        if input.hard_drop {
            let r = self.hard_drop();
            proof {
                lemma_extends_trans(b0, b2, self.bag);
                let ds = drawn_since(b0, self.bag);
                assert(ds == drawn_since(b0, b2) + drawn_since(b2, self.bag));
                if input.hold {
                    if hold_draws(a, next) {
                        assert(ds[0] == drawn_since(b0, b2)[0]);
                        assert(ds[1] == drawn_since(b2, self.bag)[0]);
                    } else {
                        assert(ds[0] == drawn_since(b2, self.bag)[0]);
                    }
                } else {
                    assert(ds[0] == drawn_since(b2, self.bag)[0]);
                }
            }
            return r;
        }
        if input.soft_drop {
            self.soft_drop();
        }
        proof {
            let ds = drawn_since(b0, self.bag);
            assert(ds == drawn_since(b1, b2));
        }
        TickResult::new(TickType::Nothing, self.piece.kind, 0)
    }

    /// One step of the simulation. `tick` counts milliseconds from the start
    /// of the session; see `ticked` for what happens.
    #[verifier::rlimit(40)]
    pub fn tick(&mut self, input: Input, tick: u128) -> (r: TickResult)
        requires
            old(self).wf(),
        ensures
            final(self).inv(),
            r.kind != TickType::GameOver ==> final(self).wf(),
            extends(old(self).bag_spec(), final(self).bag_spec()),
            drawn_since(old(self).bag_spec(), final(self).bag_spec()).len() == tick_draws(
                old(self)@,
                input,
                tick,
                old(self).bag_spec().window()[old(self).bag_spec().cursor()],
            ),
            (final(self)@, r) == ticked(
                old(self)@,
                input,
                tick,
                old(self).bag_spec().window()[old(self).bag_spec().cursor()],
                drawn_since(old(self).bag_spec(), final(self).bag_spec()),
            ),
            drawn_since(old(self).bag_spec(), final(self).bag_spec()).len() == 0
                ==> final(self).bag_spec() == old(self).bag_spec(),
            drawn_since(old(self).bag_spec(), final(self).bag_spec()).len() == 0 && legal(
                old(self)@.grid,
                old(self)@.piece,
                old(self)@.position,
            ) ==> legal(final(self)@.grid, final(self)@.piece, final(self)@.position),
            outcome_in_range(r),
    {
        if input.quit {
            assert(self.bag.drawn().subrange(0, self.bag.drawn().len() as int) =~= self.bag.drawn());
            return TickResult::new(TickType::GameOver, self.piece.kind, 0);
        }
        if tick % 500 == 0 {
            self.soft_drop();
        }
        if tick % 50 == 0 {
            if !self.test_soft_drop() {
                self.contact = self.contact + 1;
            } else {
                self.contact = 0;
            }
            if self.contact == 30 {
                return self.lock();
            }
        }
        self.input(input)
    }

    /// A board with an empty grid; the first kind drawn from `bag` is the
    /// active piece.
    pub fn new(bag: Bag) -> (r: Self)
        requires
            bag.wf(),
        ensures
            r.wf(),
            r@.grid == empty_grid(),
            r@.position == spawn_point(),
            r@.piece == (Piece { kind: bag.window()[bag.cursor()], rotation: 0 }),
            r@.held is None,
            r@.may_hold,
            r@.contact == 0,
            !r@.last_rot,
            extends(bag, r.bag_spec()),
            drawn_since(bag, r.bag_spec()) == seq![r@.piece.kind],
    {
        let mut board: Vec<[Colour; 10]> = Vec::new();
        let mut y: usize = 0;
        while y < 45
            invariant
                y <= 45,
                board@.len() == y,
                forall|i: int| 0 <= i < y ==> (#[trigger] board@[i])@ == empty_row(),
            decreases 45 - y,
        {
            board.push(blank_row());
            y += 1;
        }
        Self::with_grid(board, bag)
    }

    /// A board whose grid is given; the first kind drawn from `bag` is the
    /// active piece.
    fn with_grid(board: Vec<[Colour; 10]>, bag: Bag) -> (r: Self)
        requires
            bag.wf(),
            board@.len() == 45,
        ensures
            r.inv(),
            r.board == board,
            r@.position == spawn_point(),
            r@.piece == (Piece { kind: bag.window()[bag.cursor()], rotation: 0 }),
            r@.held is None,
            r@.may_hold,
            r@.contact == 0,
            !r@.last_rot,
            extends(bag, r.bag_spec()),
            drawn_since(bag, r.bag_spec()) == seq![r@.piece.kind],
            (forall|i: int| 0 <= i < 45 ==> (#[trigger] board@[i])@ == empty_row()) ==> r.wf()
                && r@.grid == empty_grid(),
    {
        let ghost b0 = bag;
        let mut bag = bag;
        let kind = bag.next();
        proof {
            assert(drawn_since(b0, bag) =~= seq![kind]);
            assert(bag.drawn().subrange(0, b0.drawn().len() as int) =~= b0.drawn());
        }
        let r = Board {
            bag,
            board,
            held: None,
            piece: Piece::new(kind),
            contact: 0,
            may_hold: true,
            position: Point::constant(3, 24),
            last_input_rot: false,
        };
        proof {
            if forall|i: int| 0 <= i < 45 ==> (#[trigger] board@[i])@ == empty_row() {
                assert(r@.grid =~= empty_grid());
                assert forall|y: int| 0 <= y < 45 implies !#[trigger] row_full(r@.grid, y) by {
                    assert(!(r@.grid[y][0] != Colour::Empty));
                }
            }
        }
        r
    }

    /// A board whose grid is drawn by `rows` (see `grid_of_rows`); the first
    /// kind drawn from `bag` is the active piece.
    pub fn from_strs(rows: &[&str], bag: Bag) -> (r: Self)
        requires
            bag.wf(),
            rows@.len() < 45,
            forall|i: int| 0 <= i < rows@.len() ==> (#[trigger] rows@[i])@.len() == 10,
        ensures
            r.inv(),
            no_full_rows(r@.grid) ==> r.wf(),
            r@.grid == grid_of_rows(rows@.map_values(|s: &str| s@)),
            r@.position == spawn_point(),
            r@.piece == (Piece { kind: bag.window()[bag.cursor()], rotation: 0 }),
            r@.held is None,
            r@.may_hold,
            r@.contact == 0,
            !r@.last_rot,
            extends(bag, r.bag_spec()),
            drawn_since(bag, r.bag_spec()) == seq![r@.piece.kind],
    {
        let ghost text = rows@.map_values(|s: &str| s@);
        let offset = 45 - rows.len();
        let mut board: Vec<[Colour; 10]> = Vec::new();
        let mut y: usize = 0;
        while y < 45
            invariant
                y <= 45,
                offset == 45 - rows@.len(),
                rows@.len() < 45,
                text == rows@.map_values(|s: &str| s@),
                forall|i: int| 0 <= i < rows@.len() ==> (#[trigger] rows@[i])@.len() == 10,
                board@.len() == y,
                forall|i: int| 0 <= i < y ==> (#[trigger] board@[i])@ == grid_of_rows(text)[i],
            decreases 45 - y,
        {
            let mut row = blank_row();
            if y >= offset {
                let line: &str = rows[y - offset];
                let mut x: usize = 0;
                while x < 10
                    invariant
                        x <= 10,
                        y < 45,
                        offset <= y,
                        offset == 45 - rows@.len(),
                        rows@.len() < 45,
                        text == rows@.map_values(|s: &str| s@),
                        line@.len() == 10,
                        line@ == text[y - offset],
                        forall|i: int| 0 <= i < x ==> row@[i] == grid_of_rows(text)[y as int][i],
                        forall|i: int| x <= i < 10 ==> row@[i] == Colour::Empty,
                    decreases 10 - x,
                {
                    let ghost before = row@;
                    assert(text.len() == rows@.len());
                    assert(grid_of_rows(text)[y as int][x as int] == if line@[x as int] == ' ' {
                        Colour::Empty
                    } else {
                        Colour::Grey
                    });
                    if line.get_char(x) != ' ' {
                        row[x] = Colour::Grey;
                    }
                    assert(forall|i: int| 0 <= i < x ==> row@[i] == before[i]);
                    x += 1;
                }
            }
            assert(row@ =~= grid_of_rows(text)[y as int]);
            board.push(row);
            y += 1;
        }
        let r = Self::with_grid(board, bag);
        assert(r@.grid =~= grid_of_rows(text));
        r
    }

    /// A board whose grid is drawn by the lines of `board` (see
    /// `grid_of_rows`); the first kind drawn from `bag` is the active piece.
    pub fn from_string(board: String, bag: Bag) -> (r: Self)
        requires
            bag.wf(),
            lines_of(board@).len() < 45,
            forall|i: int| 0 <= i < lines_of(board@).len() ==> (#[trigger] lines_of(board@)[i]).len()
                == 10,
        ensures
            r.inv(),
            no_full_rows(r@.grid) ==> r.wf(),
            r@.grid == grid_of_rows(lines_of(board@)),
            r@.position == spawn_point(),
            r@.piece == (Piece { kind: bag.window()[bag.cursor()], rotation: 0 }),
            r@.held is None,
            extends(bag, r.bag_spec()),
            drawn_since(bag, r.bag_spec()) == seq![r@.piece.kind],
    {
        let text: &str = board.as_str();
        let n = text.unicode_len();
        let mut rows: Vec<&str> = Vec::new();
        let mut start: usize = 0;
        let mut i: usize = 0;
        while i < n
            invariant
                i <= n,
                n == text@.len(),
                text@ == board@,
                (rows@.map_values(|l: &str| l@), start as int) == lines_upto(text@, i as int),
                start <= i,
            decreases n - i,
        {
            let c = text.get_char(i);
            if c == '\n' {
                let mut end = i;
                if end > start && text.get_char(end - 1) == '\r' {
                    end = end - 1;
                }
                let line = text.substring_char(start, end);
                let ghost before = rows@;
                rows.push(line);
                proof {
                    assert(line@ == without_cr(text@.subrange(start as int, i as int)));
                    assert(rows@.map_values(|l: &str| l@) =~= before.map_values(|l: &str| l@).push(
                        line@,
                    ));
                }
                start = i + 1;
            }
            i += 1;
        }
        if start < n {
            let mut end = n;
            if text.get_char(end - 1) == '\r' {
                end = end - 1;
            }
            let line = text.substring_char(start, end);
            let ghost before = rows@;
            rows.push(line);
            proof {
                assert(line@ == without_cr(text@.subrange(start as int, n as int)));
                assert(rows@.map_values(|l: &str| l@) =~= before.map_values(|l: &str| l@).push(
                    line@,
                ));
            }
        }
        assert(rows@.map_values(|l: &str| l@) == lines_of(board@));
        assert(forall|k: int| 0 <= k < rows@.len() ==> (#[trigger] rows@[k])@ == rows@.map_values(
            |l: &str| l@,
        )[k]);
        Self::from_strs(rows.as_slice(), bag)
    }

    /// As `from_strs`, with `piece` as the active piece.
    pub fn from_strs_with_piece(rows: &[&str], bag: Bag, piece: Piece) -> (r: Self)
        requires
            bag.wf(),
            piece.wf(),
            rows@.len() < 45,
            forall|i: int| 0 <= i < rows@.len() ==> (#[trigger] rows@[i])@.len() == 10,
        ensures
            r.inv(),
            no_full_rows(r@.grid) ==> r.wf(),
            r@.grid == grid_of_rows(rows@.map_values(|s: &str| s@)),
            r@.position == spawn_point(),
            r@.piece == piece,
            r@.held is None,
            r@.may_hold,
            r@.contact == 0,
            !r@.last_rot,
            extends(bag, r.bag_spec()),
            drawn_since(bag, r.bag_spec()).len() == 1,
    {
        let mut board = Self::from_strs(rows, bag);
        board.piece = piece;
        board
    }

    /// A board with the given grid, active piece and held piece.
    pub fn from_position(board: Vec<[Colour; 10]>, bag: Bag, piece: Piece, held: Option<Piece>) -> (r: Self)
        requires
            board@.len() == 45,
            piece.wf(),
        ensures
            r@.grid == board@.map_values(|row: [Colour; 10]| row@),
            r@.position == spawn_point(),
            r@.piece == piece,
            r@.held == held,
            r@.may_hold,
            r@.contact == 0,
            !r@.last_rot,
            r.bag_spec() == bag,
            bag.wf() ==> r.inv(),
    {
        Board {
            bag,
            board,
            held,
            piece,
            contact: 0,
            may_hold: true,
            position: Point::constant(3, 24),
            last_input_rot: false,
        }
    }

    /// The board with left and right exchanged; everything else is kept.
    pub fn mirror(&self) -> (r: Self)
        requires
            self@.grid.len() == 45,
        ensures
            r@.grid == mirrored(self@.grid),
            r@.piece == self@.piece,
            r@.position == self@.position,
            r@.held == self@.held,
            r@.may_hold == self@.may_hold,
            r@.contact == self@.contact,
            r@.last_rot == self@.last_rot,
            r.bag_spec().drawn() == self.bag_spec().drawn(),
            r.bag_spec().wf() == self.bag_spec().wf(),
    {
        let mut board: Vec<[Colour; 10]> = Vec::new();
        let mut y: usize = 0;
        while y < 45
            invariant
                y <= 45,
                self.board@.len() == 45,
                board@.len() == y,
                forall|i: int| 0 <= i < y ==> (#[trigger] board@[i])@ == mirrored(self@.grid)[i],
            decreases 45 - y,
        {
            let source = self.board[y];
            let mut row = blank_row();
            let mut x: usize = 0;
            while x < 10
                invariant
                    x <= 10,
                    y < 45,
                    self.board@.len() == 45,
                    source@ == self@.grid[y as int],
                    forall|i: int| 0 <= i < x ==> row@[i] == source@[9 - i],
                decreases 10 - x,
            {
                row[x] = source[9 - x];
                x += 1;
            }
            assert(row@ =~= mirrored(self@.grid)[y as int]);
            board.push(row);
            y += 1;
        }
        let r = Board {
            bag: self.bag.clone(),
            board,
            held: self.held,
            piece: self.piece,
            contact: self.contact,
            may_hold: self.may_hold,
            position: self.position,
            last_input_rot: self.last_input_rot,
        };
        assert(r@.grid =~= mirrored(self@.grid));
        r
    }

    pub fn blocks(&self) -> (r: &Vec<[Colour; 10]>)
        ensures
            r@.map_values(|row: [Colour; 10]| row@) == self@.grid,
    {
        &self.board
    }

    pub fn bag(&self) -> (r: Bag)
        ensures
            r.window() == self.bag_spec().window(),
            r.cursor() == self.bag_spec().cursor(),
            r.drawn() == self.bag_spec().drawn(),
            r.wf() == self.bag_spec().wf(),
    {
        self.bag.clone()
    }

    pub fn block(&self, x: usize, y: usize) -> (r: Colour)
        requires
            self@.grid.len() == 45,
            x < 10,
            y < 45,
        ensures
            r == self@.grid[y as int][x as int],
    {
        let row = self.board[y];
        row[x]
    }

    pub fn piece(&self) -> (r: Piece)
        ensures
            r == self@.piece,
    {
        self.piece
    }

    pub fn position(&self) -> (r: Point)
        ensures
            r == self@.position,
    {
        self.position
    }

    pub fn held(&self) -> (r: Option<Piece>)
        ensures
            r == self@.held,
    {
        self.held
    }

    /// The `i`-th upcoming kind within the current bag (see `Bag::peek`).
    pub fn peek(&self, i: usize) -> (r: Piece)
        requires
            self.bag_spec().wf(),
        ensures
            r == (Piece {
                kind: self.bag_spec().window()[(self.bag_spec().cursor() + i) % 7],
                rotation: 0,
            }),
    {
        Piece::new(self.bag.peek(i))
    }

    pub fn width() -> (r: usize)
        ensures
            r == 10,
    {
        Self::WIDTH
    }

    pub fn height() -> (r: usize)
        ensures
            r == 45,
    {
        Self::HEIGHT
    }

    /// Sets the active piece aside when a hold is taken (see `hold_taken`).
    fn hold(&mut self)
        requires
            old(self).inv(),
        ensures
            final(self).inv(),
            final(self).board == old(self).board,
            extends(old(self).bag, final(self).bag),
            drawn_since(old(self).bag, final(self).bag).len() == if hold_draws(
                old(self)@,
                old(self).bag.window()[old(self).bag.cursor()],
            ) {
                1int
            } else {
                0int
            },
            !hold_draws(old(self)@, old(self).bag.window()[old(self).bag.cursor()])
                ==> final(self).bag == old(self).bag,
            final(self)@ == held_state(old(self)@, old(self).bag.window()[old(self).bag.cursor()]),
            legal(old(self)@.grid, old(self)@.piece, old(self)@.position) ==> legal(
                final(self)@.grid,
                final(self)@.piece,
                final(self)@.position,
            ),
    {
        assert(self.bag.drawn().subrange(0, self.bag.drawn().len() as int) =~= self.bag.drawn());
        if !self.may_hold {
            return;
        }
        proof {
            crate::bag::lemma_bag_window(self.bag);
        }
        let kind = match self.held {
            Some(h) => h.kind,
            None => self.bag.peek(0),
        };
        if !self.legal_position(Piece::new(kind), Point::constant(3, 24)) {
            return;
        }
        let ghost before = self.bag;
        match self.held {
            Some(h) => {
                self.held = Some(Piece::new(self.piece.kind));
                self.piece = Piece::new(h.kind);
            },
            None => {
                self.held = Some(Piece::new(self.piece.kind));
                let next = self.bag.next();
                self.piece = Piece::new(next);
                assert(drawn_since(before, self.bag) =~= seq![next]);
            },
        }
        self.position = Point::constant(3, 24);
        self.may_hold = false;
        self.last_input_rot = false;
        assert(self.bag.drawn().subrange(0, before.drawn().len() as int) =~= before.drawn());
    }
}

} // verus!
