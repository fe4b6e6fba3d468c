use fen_rs::parse;
use fen_rs::parse_or_default;
use fen_rs::parse_or_else;
use fen_rs::Color;
use fen_rs::GameState;
use fen_rs::Kind;
use fen_rs::LibFenError;
use fen_rs::Position;

fn check_piece(gs: &GameState, kind: Kind, color: Color, position: Position) {
    let p = gs.pieces[position.1][position.0].unwrap();
    assert!(p.kind == kind && p.color == color && p.position == position);
}

fn check_empty(gs: &GameState, position: Position) {
    assert!(gs.pieces[position.1][position.0].is_none());
}

#[test]
fn empty_board() {
    let fen = "8/8/8/8/8/8/8/8 w - - 0 1";
    // The strict decoder's en-passant pattern does not recognize the `-`
    // absence marker, so strict decoding of this string fails.
    assert_eq!(parse(fen).unwrap_err(), LibFenError::Generic);
    // The lenient decoder applies the (empty) placement over a blank
    // snapshot: all 64 squares stay empty.
    let game_state = parse_or_default(fen);
    for y in 0..=7 {
        for x in 0..=7 {
            check_empty(&game_state, Position(x, y));
        }
    }
    assert_eq!(game_state.active_color, Color::White);
    assert_eq!(game_state.castling_availability, 0);
    assert!(game_state.en_passant.is_none());
    assert_eq!(game_state.half_move_clock, 0);
    assert_eq!(game_state.full_move_clock, 1);
}

#[test]
fn starting_position() {
    let fen = "rnbqkbnr/pppppppp/8/8/8/8/PPPPPPPP/RNBQKBNR w KQkq - 0 1";
    // `-` for the en-passant field fails the strict decoder; the placement
    // itself is decoded by the lenient path.
    assert_eq!(parse(fen).unwrap_err(), LibFenError::Generic);
    let game_state = parse_or_default(fen);

    check_piece(&game_state, Kind::Rook, Color::White, Position(0, 0));
    check_piece(&game_state, Kind::Knight, Color::White, Position(1, 0));
    check_piece(&game_state, Kind::Bishop, Color::White, Position(2, 0));
    check_piece(&game_state, Kind::Queen, Color::White, Position(3, 0));
    check_piece(&game_state, Kind::King, Color::White, Position(4, 0));
    check_piece(&game_state, Kind::Bishop, Color::White, Position(5, 0));
    check_piece(&game_state, Kind::Knight, Color::White, Position(6, 0));
    check_piece(&game_state, Kind::Rook, Color::White, Position(7, 0));
    for x in 0..=7 {
        check_piece(&game_state, Kind::Pawn, Color::White, Position(x, 1));
    }
    for y in 2..=5 {
        for x in 0..=7 {
            check_empty(&game_state, Position(x, y));
        }
    }
    for x in 0..=7 {
        check_piece(&game_state, Kind::Pawn, Color::Black, Position(x, 6));
    }
    check_piece(&game_state, Kind::Rook, Color::Black, Position(0, 7));
    check_piece(&game_state, Kind::Knight, Color::Black, Position(1, 7));
    check_piece(&game_state, Kind::Bishop, Color::Black, Position(2, 7));
    check_piece(&game_state, Kind::Queen, Color::Black, Position(3, 7));
    check_piece(&game_state, Kind::King, Color::Black, Position(4, 7));
    check_piece(&game_state, Kind::Bishop, Color::Black, Position(5, 7));
    check_piece(&game_state, Kind::Knight, Color::Black, Position(6, 7));
    check_piece(&game_state, Kind::Rook, Color::Black, Position(7, 7));
}

#[test]
fn e4_c5_nf3() {
    let fen = "rnbqkbnr/pp1ppppp/8/2p5/4P3/5N2/PPPP1PPP/RNBQKB1R b KQkq - 1 2";
    assert_eq!(parse(fen).unwrap_err(), LibFenError::Generic);
    let game_state = parse_or_default(fen);

    check_piece(&game_state, Kind::Rook, Color::White, Position(0, 0));
    check_piece(&game_state, Kind::Knight, Color::White, Position(1, 0));
    check_piece(&game_state, Kind::Bishop, Color::White, Position(2, 0));
    check_piece(&game_state, Kind::Queen, Color::White, Position(3, 0));
    check_piece(&game_state, Kind::King, Color::White, Position(4, 0));
    check_piece(&game_state, Kind::Bishop, Color::White, Position(5, 0));
    check_empty(&game_state, Position(6, 0));
    check_piece(&game_state, Kind::Rook, Color::White, Position(7, 0));
    for x in 0..=7 {
        let pos = Position(x, 1);
        if x == 4 {
            check_empty(&game_state, pos);
        } else {
            check_piece(&game_state, Kind::Pawn, Color::White, pos);
        }
    }
    for x in 0..=7 {
        let pos = Position(x, 2);
        if x == 5 {
            check_piece(&game_state, Kind::Knight, Color::White, pos);
        } else {
            check_empty(&game_state, pos);
        }
    }
    for x in 0..=7 {
        let pos = Position(x, 3);
        if x == 4 {
            check_piece(&game_state, Kind::Pawn, Color::White, pos);
        } else {
            check_empty(&game_state, pos);
        }
    }
    for x in 0..=7 {
        let pos = Position(x, 4);
        if x == 2 {
            check_piece(&game_state, Kind::Pawn, Color::Black, pos);
        } else {
            check_empty(&game_state, pos);
        }
    }
    for x in 0..=7 {
        let pos = Position(x, 6);
        if x == 2 {
            check_empty(&game_state, pos);
        } else {
            check_piece(&game_state, Kind::Pawn, Color::Black, pos);
        }
    }
    check_piece(&game_state, Kind::Rook, Color::Black, Position(0, 7));
    check_piece(&game_state, Kind::Knight, Color::Black, Position(1, 7));
    check_piece(&game_state, Kind::Bishop, Color::Black, Position(2, 7));
    check_piece(&game_state, Kind::Queen, Color::Black, Position(3, 7));
    check_piece(&game_state, Kind::King, Color::Black, Position(4, 7));
    check_piece(&game_state, Kind::Bishop, Color::Black, Position(5, 7));
    check_piece(&game_state, Kind::Knight, Color::Black, Position(6, 7));
    check_piece(&game_state, Kind::Rook, Color::Black, Position(7, 7));
}

#[test]
fn strict_success_with_en_passant_square() {
    let fen = "rnbqkbnr/pppppppp/8/8/4P3/8/PPPP1PPP/RNBQKBNR b KQkq e3 0 1";
    let gs = parse(fen).unwrap();
    assert_eq!(gs.active_color, Color::Black);
    assert_eq!(gs.castling_availability, 15);
    // The en-passant row is the literal rank digit, not rank - 1.
    assert_eq!(gs.en_passant, Some(Position(4, 3)));
    assert_eq!(gs.half_move_clock, 0);
    assert_eq!(gs.full_move_clock, 1);
    check_piece(&gs, Kind::Pawn, Color::White, Position(4, 3));
    check_empty(&gs, Position(4, 1));
}

#[test]
fn en_passant_dash_fails_strict() {
    let fen = "8/8/8/8/8/8/8/8 w KQkq - 0 1";
    assert_eq!(parse(fen).unwrap_err(), LibFenError::Generic);
}

#[test]
fn en_passant_rejects_file_h_and_wrong_ranks() {
    assert_eq!(
        parse("8/8/8/8/8/8/8/8 w KQkq h3 0 1").unwrap_err(),
        LibFenError::Generic
    );
    assert_eq!(
        parse("8/8/8/8/8/8/8/8 w KQkq e4 0 1").unwrap_err(),
        LibFenError::Generic
    );
    assert_eq!(
        parse("8/8/8/8/8/8/8/8 w KQkq e33 0 1").unwrap_err(),
        LibFenError::Generic
    );
    let gs = parse("8/8/8/8/8/8/8/8 w KQkq a6 0 1").unwrap();
    assert_eq!(gs.en_passant, Some(Position(0, 6)));
}

#[test]
fn castling_masks() {
    let gs = parse("8/8/8/8/8/8/8/8 w KQkq a3 0 1").unwrap();
    assert_eq!(gs.castling_availability, 15);
    let gs = parse("8/8/8/8/8/8/8/8 w Kq a3 0 1").unwrap();
    assert_eq!(gs.castling_availability, 9);
    let gs = parse("8/8/8/8/8/8/8/8 w - a3 0 1").unwrap();
    assert_eq!(gs.castling_availability, 0);
}

#[test]
fn castling_ignores_unrelated_characters_and_duplicates() {
    let gs = parse("8/8/8/8/8/8/8/8 w xyKK-3q a3 0 1").unwrap();
    assert_eq!(gs.castling_availability, 9);
    let gs = parse("8/8/8/8/8/8/8/8 w qkQK a3 0 1").unwrap();
    assert_eq!(gs.castling_availability, 15);
}

#[test]
fn missing_fields_are_incomplete() {
    assert_eq!(parse("").unwrap_err(), LibFenError::IncompleteFen);
    assert_eq!(parse("   ").unwrap_err(), LibFenError::IncompleteFen);
    assert_eq!(
        parse("8/8/8/8/8/8/8/8").unwrap_err(),
        LibFenError::IncompleteFen
    );
    assert_eq!(
        parse("8/8/8/8/8/8/8/8 w").unwrap_err(),
        LibFenError::IncompleteFen
    );
    assert_eq!(
        parse("8/8/8/8/8/8/8/8 w KQkq").unwrap_err(),
        LibFenError::IncompleteFen
    );
    assert_eq!(
        parse("8/8/8/8/8/8/8/8 w KQkq a3").unwrap_err(),
        LibFenError::IncompleteFen
    );
    assert_eq!(
        parse("8/8/8/8/8/8/8/8 w KQkq a3 0").unwrap_err(),
        LibFenError::IncompleteFen
    );
}

#[test]
fn bad_color_and_clock_are_illegal_input() {
    assert_eq!(
        parse("8/8/8/8/8/8/8/8 x KQkq a3 0 1").unwrap_err(),
        LibFenError::IllegalInput
    );
    assert_eq!(
        parse("8/8/8/8/8/8/8/8 ww KQkq a3 0 1").unwrap_err(),
        LibFenError::IllegalInput
    );
    assert_eq!(
        parse("8/8/8/8/8/8/8/8 w KQkq a3 zz 1").unwrap_err(),
        LibFenError::IllegalInput
    );
    assert_eq!(
        parse("8/8/8/8/8/8/8/8 w KQkq a3 0 1x").unwrap_err(),
        LibFenError::IllegalInput
    );
}

#[test]
fn clock_values_signed_and_bounded() {
    let gs = parse("8/8/8/8/8/8/8/8 w - a3 -5 3").unwrap();
    assert_eq!(gs.half_move_clock, -5);
    assert_eq!(gs.full_move_clock, 3);
    let gs = parse("8/8/8/8/8/8/8/8 w - a3 2147483647 1").unwrap();
    assert_eq!(gs.half_move_clock, i32::MAX);
    let gs = parse("8/8/8/8/8/8/8/8 w - a3 -2147483648 1").unwrap();
    assert_eq!(gs.half_move_clock, i32::MIN);
    assert_eq!(
        parse("8/8/8/8/8/8/8/8 w - a3 2147483648 1").unwrap_err(),
        LibFenError::IllegalInput
    );
    assert_eq!(
        parse("8/8/8/8/8/8/8/8 w - a3 0 -2147483649").unwrap_err(),
        LibFenError::IllegalInput
    );
    let gs = parse("8/8/8/8/8/8/8/8 w - a3 +7 0012").unwrap();
    assert_eq!(gs.half_move_clock, 7);
    assert_eq!(gs.full_move_clock, 12);
}

#[test]
fn malformed_placement_is_generic() {
    // '9' is not a valid rank character.
    assert_eq!(
        parse("9/8/8/8/8/8/8/8 w KQkq a3 0 1").unwrap_err(),
        LibFenError::Generic
    );
    // seven groups
    assert_eq!(
        parse("8/8/8/8/8/8/8 w KQkq a3 0 1").unwrap_err(),
        LibFenError::Generic
    );
    // nine groups
    assert_eq!(
        parse("8/8/8/8/8/8/8/8/8 w KQkq a3 0 1").unwrap_err(),
        LibFenError::Generic
    );
    // an empty group
    assert_eq!(
        parse("8//8/8/8/8/8/8 w KQkq a3 0 1").unwrap_err(),
        LibFenError::Generic
    );
    // a group of nine characters
    assert_eq!(
        parse("ppppppppp/8/8/8/8/8/8/8 w KQkq a3 0 1").unwrap_err(),
        LibFenError::Generic
    );
}

#[test]
fn overfull_rank_group_is_truncated_silently() {
    // "45" sums to 9 columns: the cursor leaves the board and nothing is
    // placed, but the shape is valid, so strict decoding succeeds.
    let gs = parse("45/8/8/8/8/8/8/8 w - a3 0 1").unwrap();
    for x in 0..=7 {
        check_empty(&gs, Position(x, 7));
    }
}

#[test]
fn lenient_keeps_defaults_on_bad_fullmove_clock() {
    let mut defaults = GameState::blank();
    defaults.full_move_clock = 7;
    let gs = parse_or_else("4k3/8/8/8/8/8/8/4K3 w - - 0 xyz", defaults);
    // The well-formed placement is applied ...
    check_piece(&gs, Kind::King, Color::Black, Position(4, 7));
    check_piece(&gs, Kind::King, Color::White, Position(4, 0));
    // ... but the fullmove clock stays at the caller's default.
    assert_eq!(gs.full_move_clock, 7);
}

#[test]
fn lenient_ignores_valid_non_placement_fields() {
    let gs = parse_or_else("8/8/8/8/8/8/8/8 b KQkq e3 5 9", GameState::blank());
    assert_eq!(gs.active_color, Color::White);
    assert_eq!(gs.castling_availability, 0);
    assert!(gs.en_passant.is_none());
    assert_eq!(gs.half_move_clock, 0);
    assert_eq!(gs.full_move_clock, 1);
}

#[test]
fn lenient_overwrites_default_board_squares() {
    let defaults = parse_or_default("rnbqkbnr/pppppppp/8/8/8/8/PPPPPPPP/RNBQKBNR w KQkq - 0 1");
    let gs = parse_or_else("8/8/8/8/8/8/8/Q7 w - - 0 1", defaults);
    // The decoded queen overwrites the default rook on a1 ...
    check_piece(&gs, Kind::Queen, Color::White, Position(0, 0));
    // ... while untouched defaults squares keep their pieces. The other
    // rank groups are all "8", which skip their squares without placing,
    // so the defaults show through only where nothing was written.
    check_piece(&gs, Kind::Knight, Color::White, Position(1, 0));
    check_piece(&gs, Kind::Pawn, Color::Black, Position(3, 6));
}

#[test]
fn lenient_leaves_board_on_malformed_placement() {
    let defaults = parse_or_default("rnbqkbnr/pppppppp/8/8/8/8/PPPPPPPP/RNBQKBNR w KQkq - 0 1");
    let gs = parse_or_else("9/8/8 b Kq e6 4 9", defaults);
    check_piece(&gs, Kind::Rook, Color::White, Position(0, 0));
    check_piece(&gs, Kind::Pawn, Color::Black, Position(0, 6));
    assert_eq!(gs.active_color, Color::White);
}

#[test]
fn whitespace_runs_and_extra_tokens() {
    let gs = parse("  8/8/8/8/8/8/8/8\tw\n-  a3  0   1 ").unwrap();
    assert_eq!(gs.castling_availability, 0);
    assert_eq!(gs.en_passant, Some(Position(0, 3)));
    let gs = parse("8/8/8/8/8/8/8/8 w - a3 0 1 extra tokens here").unwrap();
    assert_eq!(gs.full_move_clock, 1);
}

#[test]
fn blank_snapshot() {
    let gs = GameState::blank();
    for y in 0..=7 {
        for x in 0..=7 {
            check_empty(&gs, Position(x, y));
        }
    }
    assert_eq!(gs.active_color, Color::White);
    assert_eq!(gs.castling_availability, 0);
    assert!(gs.en_passant.is_none());
    assert_eq!(gs.half_move_clock, 0);
    assert_eq!(gs.full_move_clock, 1);
}
