use tetris_core::{
    Bag, Board, Game, GameMode, GameType, Input, InputDirection, InputRotation, Piece, PieceType,
    Recorder, RecorderFrame, Replay, ReplayError, Score, Session, TickResult, TickType,
};

const KINDS: [PieceType; 7] = [
    PieceType::I,
    PieceType::J,
    PieceType::L,
    PieceType::O,
    PieceType::S,
    PieceType::T,
    PieceType::Z,
];

fn idle() -> Input {
    Input::idle()
}

fn hard() -> Input {
    Input::new(false, false, true, false, InputRotation::Neutral, InputDirection::Neutral)
}

fn soft() -> Input {
    Input::new(false, false, false, true, InputRotation::Neutral, InputDirection::Neutral)
}

fn turn(rotation: InputRotation) -> Input {
    Input::new(false, false, false, false, rotation, InputDirection::Neutral)
}

fn shift(direction: InputDirection) -> Input {
    Input::new(false, false, false, false, InputRotation::Neutral, direction)
}

#[test]
fn bag_draws_each_kind_once_per_seven() {
    for seed in [0u64, 1, 42, 0xdead_beef, u64::MAX] {
        let mut bag = Bag::new(seed);
        for _ in 0..(10_000 / 7) {
            let run: Vec<PieceType> = (0..7).map(|_| bag.next()).collect();
            for kind in KINDS {
                assert_eq!(run.iter().filter(|k| **k == kind).count(), 1);
            }
        }
    }
}

#[test]
fn bag_is_shuffled() {
    let mut bag = Bag::new(7);
    let in_order = (0..20).all(|_| {
        let run: Vec<PieceType> = (0..7).map(|_| bag.next()).collect();
        run == KINDS.to_vec()
    });
    assert!(!in_order);
}

#[test]
fn bag_is_determined_by_its_seed() {
    let mut a = Bag::new(99);
    let mut b = Bag::new(99);
    for _ in 0..100 {
        assert_eq!(a.next(), b.next());
    }
}

#[test]
fn peek_stays_within_current_bag() {
    let mut bag = Bag::new(3);
    let first: Vec<PieceType> = (0..7).map(|i| bag.peek(i)).collect();
    assert_eq!(bag.peek(7), first[0]);
    let drawn = bag.next();
    assert_eq!(drawn, first[0]);
    assert_eq!(bag.peek(0), first[1]);
    assert_eq!(bag.peek(6), first[0]);
}

#[test]
fn four_quarter_turns_are_identity() {
    for kind in KINDS {
        for r in 0..4u8 {
            let p = Piece::new(kind).rotate(r);
            assert_eq!(p.rotation(), r);
            assert_eq!(p.rotate(4), p);
            assert_eq!(p.rotate(1).rotate(3), p);
        }
    }
}

#[test]
fn rotation_wraps_modulo_four() {
    let p = Piece::new(PieceType::L).rotate(3);
    assert_eq!(p.rotate(255).rotation(), 2);
    assert_eq!(p.rotate(2).rotation(), 1);
}

#[test]
fn piece_shapes() {
    let t = Piece::new(PieceType::T).blocks();
    let cells: Vec<(usize, usize)> =
        (0..16).filter(|i| !t.block(i % 4, i / 4).is_empty()).map(|i| (i % 4, i / 4)).collect();
    assert_eq!(cells, vec![(1, 1), (0, 2), (1, 2), (2, 2)]);
    let t1 = Piece::new(PieceType::T).rotate(1).blocks();
    let cells: Vec<(usize, usize)> =
        (0..16).filter(|i| !t1.block(i % 4, i / 4).is_empty()).map(|i| (i % 4, i / 4)).collect();
    assert_eq!(cells, vec![(1, 1), (1, 2), (2, 2), (1, 3)]);
    let i1 = Piece::new(PieceType::I).rotate(1).blocks();
    let cells: Vec<(usize, usize)> =
        (0..16).filter(|i| !i1.block(i % 4, i / 4).is_empty()).map(|i| (i % 4, i / 4)).collect();
    assert_eq!(cells, vec![(2, 0), (2, 1), (2, 2), (2, 3)]);
    for r in 0..4 {
        assert_eq!(Piece::new(PieceType::O).rotate(r).blocks(), Piece::new(PieceType::O).blocks());
    }
    assert_eq!(t.block(1, 1).code(), 93);
}

#[test]
fn legal_position_against_fixture() {
    let rows = ["  #       ", "     #    ", "#        #", "## ###### "];
    let board = Board::from_strs(&rows, Bag::new(0));
    let filled = |x: i32, y: i32| {
        y >= 45 - rows.len() as i32 && rows[(y - (45 - rows.len() as i32)) as usize].as_bytes()[x as usize] != b' '
    };
    for kind in KINDS {
        for r in 0..4u8 {
            let piece = Piece::new(kind).rotate(r);
            let body = piece.blocks();
            for px in -4i8..=11 {
                for py in -4i8..=46 {
                    let mut expected = true;
                    for by in 0..4 {
                        for bx in 0..4 {
                            if !body.block(bx, by).is_empty() {
                                let x = px as i32 + bx as i32;
                                let y = py as i32 + by as i32;
                                if x < 0 || x >= 10 || y < 0 || y >= 45 || filled(x, y) {
                                    expected = false;
                                }
                            }
                        }
                    }
                    let got = board.legal_position(piece, tetris_core::Point::new(px, py));
                    assert_eq!(got, expected, "{:?} {} at ({}, {})", kind, r, px, py);
                }
            }
        }
    }
}

#[test]
fn i_piece_clears_a_line() {
    let mut board =
        Board::from_strs_with_piece(&["###    ###"], Bag::new(0), Piece::new(PieceType::I));
    let result = board.tick(hard(), 1);
    assert_eq!(result, TickResult::new(TickType::Clear, PieceType::I, 1));
    let mut score = Score::new();
    score.update(result);
    assert_eq!(score.score(), 100);
    assert_eq!(score.lines(), 1);
    for x in 0..10 {
        assert!(board.block(x, 44).is_empty());
    }
}

#[test]
fn t_spin_without_lines_scores() {
    let rows = ["  #       ", "          ", "  # #     "];
    let mut board = Board::from_strs_with_piece(&rows, Bag::new(0), Piece::new(PieceType::T));
    for t in 0..30 {
        board.tick(soft(), t);
    }
    board.tick(turn(InputRotation::Quarter), 30);
    assert_eq!(board.piece().rotation(), 1);
    let result = board.tick(hard(), 31);
    assert_eq!(result, TickResult::new(TickType::Spin, PieceType::T, 0));
    let mut score = Score::new();
    score.update(result);
    assert_eq!(score.score(), 100);
    assert_eq!(score.lines(), 0);
}

#[test]
fn hard_drop_without_rotation_is_no_spin() {
    let rows = ["  #       ", "          ", "  # #     "];
    let mut board = Board::from_strs_with_piece(&rows, Bag::new(0), Piece::new(PieceType::T));
    let result = board.tick(hard(), 1);
    assert_eq!(result, TickResult::new(TickType::Nothing, PieceType::T, 0));
}

#[test]
fn quit_ends_at_once() {
    let mut board = Board::new(Bag::new(5));
    let before_piece = board.piece();
    let before_position = board.position();
    let quit = Input::new(true, true, true, true, InputRotation::Quarter, InputDirection::SnapLeft);
    let result = board.tick(quit, 500);
    assert_eq!(result.kind(), TickType::GameOver);
    assert_eq!(result.lines(), 0);
    assert_eq!(board.piece(), before_piece);
    assert_eq!(board.position(), before_position);
    assert_eq!(board.held(), None);
    let mut game = Game::new(Bag::new(5), GameType::new_marathon());
    assert_eq!(game.tick(quit, 17).kind(), TickType::GameOver);
    assert_eq!(game.score(), Score::new());
}

#[test]
fn moves_and_snaps() {
    let mut board = Board::new(Bag::new(1));
    let x0 = board.position().x();
    board.tick(shift(InputDirection::Left), 1);
    assert_eq!(board.position().x(), x0 - 1);
    board.tick(shift(InputDirection::Right), 2);
    assert_eq!(board.position().x(), x0);
    board.tick(shift(InputDirection::SnapRight), 3);
    let right = board.position().x();
    board.tick(shift(InputDirection::Right), 4);
    assert_eq!(board.position().x(), right);
    board.tick(shift(InputDirection::SnapLeft), 5);
    let left = board.position().x();
    board.tick(shift(InputDirection::Left), 6);
    assert_eq!(board.position().x(), left);
    assert!(left < right);
}

#[test]
fn gravity_every_five_hundred_ticks() {
    let mut board = Board::new(Bag::new(1));
    let y0 = board.position().y();
    board.tick(idle(), 1);
    assert_eq!(board.position().y(), y0);
    board.tick(idle(), 500);
    assert_eq!(board.position().y(), y0 + 1);
    board.tick(soft(), 501);
    assert_eq!(board.position().y(), y0 + 2);
}

#[test]
fn lock_delay_locks_a_resting_piece() {
    let mut board = Board::from_strs_with_piece(&[], Bag::new(2), Piece::new(PieceType::O));
    let first = board.piece();
    for t in 1..40 {
        board.tick(soft(), t);
    }
    let mut result = TickResult::new(TickType::Nothing, PieceType::O, 0);
    let mut t = 50;
    let mut locks = 0;
    while t <= 50 * 30 {
        result = board.tick(idle(), t);
        if t < 50 * 30 {
            assert_eq!(board.piece(), first);
        } else {
            locks += 1;
        }
        t += 50;
    }
    assert_eq!(locks, 1);
    assert_eq!(result, TickResult::new(TickType::Nothing, PieceType::O, 0));
    assert!(!board.block(4, 44).is_empty());
    assert!(!board.block(5, 43).is_empty());
}

#[test]
fn hold_swaps_and_waits_for_a_lock() {
    let mut board = Board::new(Bag::new(11));
    let first = board.piece().kind();
    let next = board.peek(0).kind();
    let hold = Input::new(true, false, false, false, InputRotation::Neutral, InputDirection::Neutral);
    board.tick(hold, 1);
    assert_eq!(board.held(), Some(Piece::new(first)));
    assert_eq!(board.piece().kind(), next);
    board.tick(hold, 2);
    assert_eq!(board.piece().kind(), next);
    board.tick(hard(), 3);
    board.tick(hold, 4);
    assert_eq!(board.piece().kind(), first);
}

#[test]
fn topping_out_is_game_over() {
    let rows: Vec<&str> = vec!["#### #####"; 30];
    let mut board = Board::from_strs_with_piece(&rows, Bag::new(0), Piece::new(PieceType::O));
    let result = board.tick(hard(), 1);
    assert_eq!(result.kind(), TickType::GameOver);
}

#[test]
fn scoring_table() {
    let cases = [
        (TickType::Clear, PieceType::I, 1, 100, 1),
        (TickType::Clear, PieceType::I, 2, 300, 2),
        (TickType::Clear, PieceType::I, 3, 500, 3),
        (TickType::Clear, PieceType::I, 4, 800, 4),
        (TickType::Spin, PieceType::S, 0, 0, 0),
        (TickType::Spin, PieceType::Z, 1, 100, 1),
        (TickType::Spin, PieceType::J, 2, 300, 2),
        (TickType::Spin, PieceType::L, 3, 500, 3),
        (TickType::Spin, PieceType::T, 0, 100, 0),
        (TickType::Spin, PieceType::T, 1, 800, 1),
        (TickType::Spin, PieceType::T, 2, 1200, 2),
        (TickType::Spin, PieceType::T, 3, 1600, 3),
        (TickType::Nothing, PieceType::T, 0, 0, 0),
    ];
    for (kind, piece, lines, points, counted) in cases {
        let mut score = Score { score: 10, lines: 1 };
        score.update(TickResult::new(kind, piece, lines));
        assert_eq!(score.score(), 10 + points);
        assert_eq!(score.lines(), 1 + counted);
    }
}

#[test]
fn line_target_ends_the_game() {
    let mut game = Game::new(Bag::new(0), GameType::new_lines(0));
    let result = game.tick(idle(), 1);
    assert_eq!(result.kind(), TickType::GameOver);
    let mut game = Game::new(Bag::new(0), GameType::new_lines(5));
    assert_eq!(game.tick(idle(), 1).kind(), TickType::Nothing);
    assert_eq!(game.kind().mode(), GameMode::Lines);
    assert_eq!(game.kind().lines(), 5);
}

#[test]
fn time_target_ends_the_game() {
    let mut game = Game::new(Bag::new(0), GameType::new_timed(2));
    assert_eq!(game.tick(idle(), 1999).kind(), TickType::Nothing);
    assert_eq!(game.tick(idle(), 2000).kind(), TickType::GameOver);
    assert_eq!(GameType::new_timed(2).time(), 2);
    assert_eq!(GameType::new_timed(2).mode(), GameMode::Time);
    assert_eq!(GameType::new_marathon().mode(), GameMode::Marathon);
}

#[test]
fn game_modes_by_code() {
    assert_eq!(GameMode::new(0), Ok(GameMode::Marathon));
    assert_eq!(GameMode::new(1), Ok(GameMode::Lines));
    assert_eq!(GameMode::new(2), Ok(GameMode::Time));
    assert_eq!(GameMode::new(3), Err(()));
    assert_eq!(GameMode::Time.code(), 2);
}

#[test]
fn input_packing() {
    let all = Input::new(true, false, true, true, InputRotation::ThreeQuarter, InputDirection::SnapRight);
    let frame = RecorderFrame::new(7, all);
    assert_eq!(frame.input, 0b1111_1110);
    assert_eq!(frame.input(), all);
    let left = RecorderFrame::new(1, shift(InputDirection::SnapLeft));
    assert_eq!(left.input, 0b101);
    assert_eq!(RecorderFrame::new(1, turn(InputRotation::TwoQuarter)).input, 0b10_000);
    let quit = Input::new(false, true, false, false, InputRotation::Neutral, InputDirection::Left);
    assert_eq!(RecorderFrame::new(0, quit).input, 0xFF);
    let only_quit = Input::new(false, true, false, false, InputRotation::Neutral, InputDirection::Neutral);
    assert_eq!(RecorderFrame::new(0, quit).input(), only_quit);
    assert_eq!(RecorderFrame::from_bytes(0x12, 0x34, 9).time, 0x1234);
}

/// Plays `ticks` ticks of a scripted session, recording it.
fn play(seed: u64, kind: GameType, ticks: u128) -> (Game, Recorder) {
    let mut game = Game::new(Bag::new(seed), kind);
    let mut recorder = Recorder::new(seed, 0, &game);
    for t in 0..ticks {
        let input = match t % 97 {
            13 => shift(InputDirection::Left),
            29 => turn(InputRotation::Quarter),
            41 => shift(InputDirection::SnapRight),
            55 => turn(InputRotation::TwoQuarter),
            70 => Input::new(true, false, false, false, InputRotation::Neutral, InputDirection::Neutral),
            83 => hard(),
            _ => idle(),
        };
        let input = if t == 0 { idle() } else { input };
        recorder.record(input, t);
        if game.tick(input, t).kind() == TickType::GameOver {
            break;
        }
    }
    (game, recorder)
}

#[test]
fn round_trip_keeps_everything() {
    let (game, recorder) = play(1234, GameType::new_lines(40), 3000);
    let frames_before = recorder.frames().clone();
    let bytes = recorder.raw("player one", game.score(), 3000, -17);
    let mut replay = Replay::new(bytes).unwrap();
    assert_eq!(replay.username(), "player one");
    assert_eq!(replay.version(), 1);
    assert_eq!(replay.seed(), 1234);
    assert_eq!(replay.score(), game.score());
    assert_eq!(replay.duration(), 3000);
    assert_eq!(replay.time_stamp(), -17);
    assert_eq!(replay.kind(), GameType::new_lines(40));
    let mut time: u128 = 0;
    for f in frames_before {
        time += f.time as u128;
        let got = replay.next().unwrap();
        assert_eq!(got.time, time);
        assert_eq!(got.input, f.input());
    }
    assert_eq!(replay.next(), None);
}

#[test]
fn replay_reproduces_the_session() {
    let (game, recorder) = play(77, GameType::new_marathon(), 6000);
    let bytes = recorder.raw("me", game.score(), 6000, 0);
    let mut replay = Replay::new(bytes).unwrap();
    let mut again = Game::new(Bag::new(replay.seed()), replay.kind());
    for t in 0..6000u128 {
        let input = replay.input_for(t);
        if again.tick(input, t).kind() == TickType::GameOver {
            break;
        }
    }
    assert_eq!(again.score(), replay.score());
    for y in 0..45 {
        for x in 0..10 {
            assert_eq!(again.block(x, y), game.block(x, y));
        }
    }
}

#[test]
fn keep_alive_frame_at_the_boundary() {
    let game = Game::new(Bag::new(0), GameType::new_marathon());
    let mut recorder = Recorder::new(0, 0, &game);
    let first = 1000u128;
    let second = first + 65535;
    for t in 0..=second {
        let input = if t == first || t == second { hard() } else { idle() };
        recorder.record(input, t);
    }
    let bytes = recorder.raw("k", Score::new(), 0, 0);
    let mut replay = Replay::new(bytes).unwrap();
    let times: Vec<u128> = std::iter::from_fn(|| replay.next()).map(|f| f.time).collect();
    assert_eq!(times, vec![0, first, second]);
}

#[test]
fn keep_alive_frame_after_long_silence() {
    let game = Game::new(Bag::new(0), GameType::new_marathon());
    let mut recorder = Recorder::new(0, 0, &game);
    for t in 0..=70_000u128 {
        recorder.record(idle(), t);
    }
    let mut replay = Replay::new(recorder.raw("k", Score::new(), 0, 0)).unwrap();
    let frames: Vec<_> = std::iter::from_fn(|| replay.next()).collect();
    assert_eq!(frames.len(), 2);
    assert_eq!(frames[1].time, 65535);
    assert_eq!(frames[1].input, idle());
}

#[test]
fn decoding_errors() {
    assert_eq!(Replay::new(b"no newline".to_vec()).err(), Some(ReplayError::UsernameNotFound));
    assert_eq!(Replay::new(vec![0xff, 0xfe, b'\n']).err(), Some(ReplayError::UsernameNotFound));
    let mut short = b"name\n".to_vec();
    short.extend_from_slice(&[1, 0, 0, 0]);
    assert_eq!(Replay::new(short).err(), Some(ReplayError::BufferTooShort));
    let mut header = b"name\n".to_vec();
    header.extend_from_slice(&[1, 0]);
    header.extend_from_slice(&[0u8; 48]);
    assert!(Replay::new(header.clone()).is_ok());
    let mut version = header.clone();
    version[5] = 2;
    assert_eq!(Replay::new(version).err(), Some(ReplayError::UnsupportedVersion));
    let mut mode = header.clone();
    mode[6] = 3;
    assert_eq!(Replay::new(mode).err(), Some(ReplayError::UnknownMode));
}

#[test]
fn decoded_fields_are_big_endian() {
    let mut bytes = "  zoë \n".as_bytes().to_vec();
    bytes.extend_from_slice(&[1, 1]);
    bytes.extend_from_slice(&[0, 0, 0, 0, 0, 0, 0, 40]);
    bytes.extend_from_slice(&[0, 0, 0, 0, 0, 0, 1, 2]);
    bytes.extend_from_slice(&[0, 0, 0, 0, 0, 0, 0, 3]);
    bytes.extend_from_slice(&[0, 0, 0, 0, 0, 1, 0, 0]);
    bytes.extend_from_slice(&[0x01, 0x23, 0x45, 0x67, 0x89, 0xab, 0xcd, 0xef]);
    bytes.extend_from_slice(&[0xff; 8]);
    bytes.extend_from_slice(&[0x01, 0x00, 0b0100_0000, 0x00, 0x02, 0xff, 0x09]);
    let mut replay = Replay::new(bytes).unwrap();
    assert_eq!(replay.username(), "zoë");
    assert_eq!(replay.kind(), GameType::new_lines(40));
    assert_eq!(replay.score(), Score { score: 258, lines: 3 });
    assert_eq!(replay.duration(), 65536);
    assert_eq!(replay.seed(), 0x0123_4567_89ab_cdef);
    assert_eq!(replay.time_stamp(), -1);
    let a = replay.next().unwrap();
    assert_eq!(a.time, 256);
    assert_eq!(a.input, hard());
    let b = replay.next().unwrap();
    assert_eq!(b.time, 258);
    assert_eq!(
        b.input,
        Input::new(false, true, false, false, InputRotation::Neutral, InputDirection::Neutral)
    );
    assert_eq!(replay.next(), None);
}

#[test]
fn encoded_layout() {
    let game = Game::new(Bag::new(0), GameType::new_timed(9));
    let mut recorder = Recorder::new(5, 10, &game);
    recorder.record(hard(), 12);
    let bytes = recorder.raw("ab", Score { score: 7, lines: 1 }, 3, 4);
    let mut expected = b"ab\n".to_vec();
    expected.extend_from_slice(&[1, 2]);
    for n in [9u64, 7, 1, 3, 5, 4] {
        expected.extend_from_slice(&n.to_be_bytes());
    }
    expected.extend_from_slice(&[0, 0, 0, 0, 2, 0b0100_0000]);
    assert_eq!(bytes, expected);
}

#[test]
fn playback_waits_for_each_frame() {
    let mut bytes = b"x\n".to_vec();
    bytes.extend_from_slice(&[1, 0]);
    bytes.extend_from_slice(&[0u8; 48]);
    bytes.extend_from_slice(&[0, 5, 1, 0, 0, 2]);
    let mut replay = Replay::new(bytes).unwrap();
    assert_eq!(replay.input_for(4), idle());
    assert_eq!(replay.input_for(6), shift(InputDirection::Left));
    assert_eq!(replay.input_for(6), shift(InputDirection::Right));
    assert_eq!(replay.input_for(7), idle());
}

#[test]
fn session_records_and_ends() {
    let mut session = Session::new(21, GameType::new_lines(1), 0);
    assert!(!session.is_over());
    let mut t: u128 = 1;
    let mut last = None;
    while !session.is_over() && t < 200_000 {
        let input = if t % 60 == 59 { hard() } else { idle() };
        last = session.advance(t, input);
        t += 1;
    }
    assert!(session.is_over());
    assert_eq!(last.map(|r| r.kind()), Some(TickType::GameOver));
    assert_eq!(session.advance(t, hard()), None);
    let score = session.game().score();
    let bytes = session.finish("s", t as u64, 1);
    let replay = Replay::new(bytes).unwrap();
    assert_eq!(replay.score(), score);
    assert_eq!(replay.kind(), GameType::new_lines(1));
    assert_eq!(replay.seed(), 21);
}

#[test]
fn session_quit() {
    let mut session = Session::new(4, GameType::new_marathon(), 100);
    assert_eq!(session.last_frame(), 100);
    assert_eq!(session.advance(101, idle()).map(|r| r.kind()), Some(TickType::Nothing));
    assert_eq!(session.last_frame(), 100);
    assert_eq!(session.last_tick(), 101);
    let quit = Input::new(false, true, false, false, InputRotation::Neutral, InputDirection::Neutral);
    assert_eq!(session.advance(102, quit).map(|r| r.kind()), Some(TickType::GameOver));
    assert_eq!(session.last_frame(), 102);
    assert!(session.is_over());
}

#[test]
fn seed_from_bytes_matches_number() {
    let bytes = [0x01, 0x23, 0x45, 0x67, 0x89, 0xab, 0xcd, 0xef];
    let mut a = Bag::from_seed_bytes(bytes);
    let mut b = Bag::new(0x0123_4567_89ab_cdef);
    assert_eq!(a.seed(), 0x0123_4567_89ab_cdef);
    for _ in 0..21 {
        assert_eq!(a.next(), b.next());
    }
}

#[test]
fn points_and_colours() {
    let p = tetris_core::Point::new(3, -2);
    let q = tetris_core::Point::constant(-1, 5);
    assert_eq!((p.x(), p.y()), (3, -2));
    assert_eq!(p.plus(q), tetris_core::Point::new(2, 3));
    assert_eq!(p.minus(q), tetris_core::Point::new(4, -7));
    let codes: Vec<u8> = KINDS.iter().map(|k| k.colour().code()).collect();
    assert_eq!(codes, vec![45, 21, 202, 226, 34, 93, 124]);
    assert_eq!(Piece::new(PieceType::Z).colour(), PieceType::Z.colour());
    assert_eq!(tetris_core::Colour::Grey.code(), 250);
    assert_eq!(tetris_core::Colour::Empty.code(), 0);
}

#[test]
fn board_accessors() {
    let mut bag = Bag::new(8);
    let first = bag.peek(0);
    let board = Board::new(Bag::new(8));
    assert_eq!(Board::width(), 10);
    assert_eq!(Board::height(), 45);
    assert_eq!(board.piece(), Piece::new(first));
    assert_eq!(board.position(), tetris_core::Point::new(3, 24));
    assert_eq!(board.peek(0).kind(), { bag.next(); bag.peek(0) });
    assert_eq!(board.bag().peek(0), board.peek(0).kind());
    assert_eq!(board.blocks().len(), 45);
    let r = TickResult::new(TickType::Spin, PieceType::T, 2);
    assert_eq!((r.kind(), r.piece(), r.lines()), (TickType::Spin, PieceType::T, 2));
    let game = Game::new(Bag::new(8), GameType::new(GameMode::Lines, 3));
    assert_eq!(game.piece(), board.piece());
    assert_eq!(game.position(), board.position());
    assert_eq!(game.held(), None);
    assert_eq!(game.peek(1), board.peek(1));
    assert_eq!(game.blocks().len(), 45);
    assert!(game.block(0, 44).is_empty());
}

#[test]
fn mirror_reverses_rows() {
    let board = Board::from_strs(&["##   #    "], Bag::new(0));
    let m = board.mirror();
    for x in 0..10 {
        assert_eq!(m.block(x, 44), board.block(9 - x, 44));
    }
}

#[test]
fn long_gap_is_bridged_by_keep_alives() {
    let game = Game::new(Bag::new(0), GameType::new_marathon());
    let mut recorder = Recorder::new(0, 0, &game);
    recorder.record(hard(), 200_000);
    assert_eq!(recorder.last_frame(), 200_000);
    let mut replay = Replay::new(recorder.raw("k", Score::new(), 0, 0)).unwrap();
    let frames: Vec<_> = std::iter::from_fn(|| replay.next()).collect();
    let times: Vec<u128> = frames.iter().map(|f| f.time).collect();
    assert_eq!(times, vec![0, 65535, 131070, 196605, 200_000]);
    assert_eq!(frames[2].input, idle());
    assert_eq!(frames[4].input, hard());
}

#[test]
fn o_piece_never_turns() {
    let mut board = Board::from_strs_with_piece(&[], Bag::new(0), Piece::new(PieceType::O));
    let position = board.position();
    for r in [InputRotation::Quarter, InputRotation::TwoQuarter, InputRotation::ThreeQuarter] {
        board.tick(turn(r), 1);
        assert_eq!(board.piece(), Piece::new(PieceType::O));
        assert_eq!(board.position(), position);
    }
}

#[test]
fn hold_is_declined_when_the_spawn_point_is_taken() {
    let hold = Input::new(true, false, false, false, InputRotation::Neutral, InputDirection::Neutral);
    let mut free = Board::from_strs_with_piece(&[], Bag::new(0), Piece::new(PieceType::T));
    free.tick(hold, 1);
    assert_eq!(free.held(), Some(Piece::new(PieceType::T)));

    let mut grid = vec![[tetris_core::Colour::Empty; 10]; 45];
    for row in grid.iter_mut().skip(24) {
        for cell in row.iter_mut().take(7).skip(3) {
            *cell = tetris_core::Colour::Grey;
        }
    }
    let mut blocked = Board::from_position(
        grid,
        Bag::new(0),
        Piece::new(PieceType::I),
        Some(Piece::new(PieceType::O)),
    );
    let before = (blocked.piece(), blocked.position(), blocked.held());
    blocked.tick(hold, 1);
    assert_eq!((blocked.piece(), blocked.position(), blocked.held()), before);
}

#[test]
fn game_over_scores_nothing() {
    let mut score = Score { score: 5, lines: 2 };
    score.update(TickResult::new(TickType::GameOver, PieceType::L, 0));
    assert_eq!(score, Score { score: 5, lines: 2 });
}

#[test]
fn far_positions_are_refused() {
    let board = Board::new(Bag::new(0));
    let piece = Piece::new(PieceType::J);
    for (x, y) in [(20i8, 10i8), (124, 124), (-128, -128), (3, 100), (-40, 30)] {
        assert!(!board.legal_position(piece, tetris_core::Point::new(x, y)));
    }
}

#[test]
fn board_from_string_reads_lines() {
    let text = "  #       \r\n##### ####\n".to_string();
    let a = Board::from_string(text, Bag::new(0));
    let b = Board::from_strs(&["  #       ", "##### ####"], Bag::new(0));
    for y in 0..45 {
        for x in 0..10 {
            assert_eq!(a.block(x, y), b.block(x, y));
        }
    }
    assert!(!a.block(2, 43).is_empty());
    assert!(a.block(5, 44).is_empty());
}

#[test]
fn username_is_trimmed_of_unicode_white_space() {
    let mut bytes = "\u{3000}\tname\u{2003} \n".as_bytes().to_vec();
    bytes.extend_from_slice(&[1, 0]);
    bytes.extend_from_slice(&[0u8; 48]);
    let replay = Replay::new(bytes).unwrap();
    assert_eq!(replay.username(), "name");
}

#[test]
fn quit_leaves_the_bag_alone() {
    let mut board = Board::new(Bag::new(9));
    let upcoming: Vec<PieceType> = (0..7).map(|i| board.peek(i).kind()).collect();
    let quit = Input::new(true, true, true, false, InputRotation::Neutral, InputDirection::Neutral);
    board.tick(quit, 3);
    let after: Vec<PieceType> = (0..7).map(|i| board.peek(i).kind()).collect();
    assert_eq!(upcoming, after);
}
