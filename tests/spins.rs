use tetris_core::{Bag, Board, Input, InputDirection, InputRotation, Piece, PieceType};

fn with(direction: InputDirection, rotation: InputRotation, soft: bool, hard: bool) -> Input {
    Input::new(false, false, hard, soft, rotation, direction)
}

fn occupancy(board: &Board) -> Vec<Vec<bool>> {
    (0..Board::HEIGHT)
        .map(|y| (0..Board::WIDTH).map(|x| !board.block(x, y).is_empty()).collect())
        .collect()
}

/// Plays `inputs` on `board`, one tick each:
/// l/r left/right, L/R snap left/right, c/C clockwise/counter-clockwise,
/// h half turn, s soft drop, S soft drop for thirty ticks, H hard drop.
fn spin_test(mut board: Board, expected: Board, inputs: &str) {
    let none = InputDirection::Neutral;
    let still = InputRotation::Neutral;
    let mut tick: u128 = 0;
    for c in inputs.chars() {
        let input = match c {
            'l' => with(InputDirection::Left, still, false, false),
            'r' => with(InputDirection::Right, still, false, false),
            'L' => with(InputDirection::SnapLeft, still, false, false),
            'R' => with(InputDirection::SnapRight, still, false, false),
            'c' => with(none, InputRotation::Quarter, false, false),
            'C' => with(none, InputRotation::ThreeQuarter, false, false),
            'h' => with(none, InputRotation::TwoQuarter, false, false),
            's' => with(none, still, true, false),
            'S' => {
                for i in tick..(tick + 30) {
                    board.tick(with(none, still, true, false), i);
                }
                tick += 30;
                continue;
            }
            'H' => with(none, still, false, true),
            _ => panic!("unknown input `{}`", c),
        };
        board.tick(input, tick);
        tick += 1;
    }
    assert_eq!(occupancy(&board), occupancy(&expected));
}

fn board(rows: &[&str], kind: PieceType) -> Board {
    Board::from_strs_with_piece(rows, Bag::new(0), Piece::new(kind))
}

fn plain(rows: &[&str]) -> Board {
    Board::from_strs(rows, Bag::new(0))
}

#[test]
fn no_kick() {
    let board0 = board(&["#### #####"], PieceType::T);

    spin_test(board0.clone(), plain(&["   ###    "]), "ShH");

    let expected = plain(&["    #     ", "   ###    ", "#### #####"]);
    spin_test(board0.clone(), expected, "hShH");

    let board1 = board(&[], PieceType::T);
    let expected = plain(&["    #     ", "   ##     ", "    #     "]);
    spin_test(board1.clone(), expected.clone(), "cShH");
    spin_test(board1.mirror(), expected.mirror(), "rCShH");
}

const TKI_LEFT: [&str; 4] = ["       #  ", "#  ## ####", "#   ######", "## #######"];

#[test]
fn tki_left_counter_clockwise() {
    let expected = plain(&TKI_LEFT[0..2]);
    spin_test(board(&TKI_LEFT, PieceType::T), expected, "llCSCH")
}

#[test]
fn tki_left_clockwise() {
    let expected = plain(&TKI_LEFT[0..2]);
    spin_test(board(&TKI_LEFT, PieceType::T), expected, "lllcScH")
}

const TKI_RIGHT: [&str; 4] = ["  #       ", "#### ##  #", "######   #", "####### ##"];

#[test]
fn tki_right_counter_clockwise() {
    let expected = plain(&TKI_RIGHT[0..2]);
    spin_test(board(&TKI_RIGHT, PieceType::T), expected, "rrrrCSCH")
}

#[test]
fn tki_right_clockwise() {
    let expected = plain(&TKI_RIGHT[0..2]);
    spin_test(board(&TKI_RIGHT, PieceType::T), expected, "rrrcScH")
}

const HACHI_LEFT: [&str; 7] = [
    "  ##    ##",
    "   ## ####",
    "## #######",
    "#  #######",
    "#   ######",
    "## #######",
    "## #######",
];

#[test]
fn hachi_left() {
    let tst_rows = [HACHI_LEFT[0], HACHI_LEFT[1], HACHI_LEFT[2], HACHI_LEFT[3], HACHI_LEFT[6]];
    let tst = board(&tst_rows, PieceType::T);
    let expected = plain(&tst_rows[0..2]);

    spin_test(board(&HACHI_LEFT, PieceType::T), tst.clone(), "cLSCSCSCH");
    spin_test(tst, expected, "cLSCSCH");
}

const HACHI_RIGHT: [&str; 7] = [
    "##    ##  ",
    "#### ##   ",
    "####### ##",
    "#######  #",
    "######   #",
    "####### ##",
    "####### ##",
];

#[test]
fn hachi_right() {
    let tst_rows = [HACHI_RIGHT[0], HACHI_RIGHT[1], HACHI_RIGHT[2], HACHI_RIGHT[3], HACHI_RIGHT[6]];
    let tst = board(&tst_rows, PieceType::T);
    let expected = plain(&tst_rows[0..2]);

    spin_test(board(&HACHI_RIGHT, PieceType::T), tst.clone(), "CRScScScH");
    spin_test(tst, expected, "CRScScH");
}

const ZSD: [&str; 2] = ["#####  ###", "######  ##"];

#[test]
fn zsd() {
    spin_test(board(&ZSD, PieceType::Z), plain(&[]), "rrrCSCH");
}

#[test]
fn ssd() {
    spin_test(board(&ZSD, PieceType::S).mirror(), plain(&[]), "llcScH");
}

const B2B_ZST: [&[&str]; 5] = [
    &[
        "       ###",
        "####    ##",
        "###### ###",
        "#####  ###",
        "##### ####",
        "####### ##",
        "######  ##",
        "###### ###",
        "##### ####",
        "####  ####",
        "#### #####",
        "#####   ##",
        "####### ##",
        "######  ##",
        "###### ###",
    ],
    &[
        "       ###",
        "####    ##",
        "####### ##",
        "######  ##",
        "###### ###",
        "##### ####",
        "####  ####",
        "#### #####",
        "#####   ##",
        "####### ##",
        "######  ##",
        "###### ###",
    ],
    &[
        "       ###",
        "####    ##",
        "##### ####",
        "####  ####",
        "#### #####",
        "#####   ##",
        "####### ##",
        "######  ##",
        "###### ###",
    ],
    &[
        "       ###",
        "####    ##",
        "#####   ##",
        "####### ##",
        "######  ##",
        "###### ###",
    ],
    &["       ###", "####    ##", "#####   ##"],
];

#[test]
fn b2b_zst() {
    let indented_hang = board(B2B_ZST[0], PieceType::Z);
    let normal_hang = board(B2B_ZST[1], PieceType::Z);
    let roofless_kick = board(B2B_ZST[2], PieceType::Z);
    let double_hang = board(B2B_ZST[3], PieceType::Z);
    let last = plain(B2B_ZST[4]);

    spin_test(indented_hang, normal_hang.clone(), "SRsRCH");
    spin_test(normal_hang, roofless_kick.clone(), "SRsRCH");
    spin_test(roofless_kick, double_hang.clone(), "SRsLcH");
    spin_test(double_hang, last, "SRsRCH");
}

#[test]
fn b2b_sst() {
    let indented_hang = board(B2B_ZST[0], PieceType::S).mirror();
    let normal_hang = board(B2B_ZST[1], PieceType::S).mirror();
    let roofless_kick = board(B2B_ZST[2], PieceType::S).mirror();
    let double_hang = board(B2B_ZST[3], PieceType::S).mirror();
    let last = plain(B2B_ZST[4]).mirror();

    spin_test(indented_hang, normal_hang.clone(), "SLsLcH");
    spin_test(normal_hang, roofless_kick.clone(), "SLsLcH");
    spin_test(roofless_kick, double_hang.clone(), "SLsRCH");
    spin_test(double_hang, last, "SLsLcH");
}
