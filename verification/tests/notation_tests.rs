use chessland_puzzle_generator::notation::Pgn;
use chessland_puzzle_generator::notation::Side;
use chessland_puzzle_generator::puzzle::Move;

#[test]
fn standard_opening_converts_to_coordinates() {
    let pgn = Pgn::from_str("1. e4 e5 2. Nf3 Nc6").expect("valid notation");
    let moves = pgn.moves();
    assert_eq!(moves.len(), 4);
    assert_eq!(moves[0], "e2e4");
    assert_eq!(moves[1], "e7e5");
    assert_eq!(moves[2], "g1f3");
    assert_eq!(moves[3], "b8c6");
}

#[test]
fn invalid_rank_reports_move_number() {
    let err = Pgn::from_str("1. e4 e9 2. Nf3").expect_err("e9 is invalid");
    let msg = err.0;
    assert!(msg.contains("move num:2"), "message was: {msg}");
    assert!(msg.contains("9"), "message was: {msg}");
}

#[test]
fn all_failing_tokens_are_reported() {
    let err = Pgn::from_str("e9 Zz9 e2e4").expect_err("two bad tokens");
    let msg = err.0;
    assert!(msg.contains("move num:1"), "message was: {msg}");
    assert!(msg.contains("move num:2"), "message was: {msg}");
    assert!(!msg.contains("move num:3"), "message was: {msg}");
}

#[test]
fn castling_tokens_resolve_by_side() {
    let w = Pgn::validate_move(&Side::White("O-O".to_string())).unwrap();
    assert_eq!(w, "e1g1");
    let b = Pgn::validate_move(&Side::Black("O-O".to_string())).unwrap();
    assert_eq!(b, "e8g8");
    let wl = Pgn::validate_move(&Side::White("O-O-O".to_string())).unwrap();
    assert_eq!(wl, "e1c1");
    let bl = Pgn::validate_move(&Side::Black("O-O-O".to_string())).unwrap();
    assert_eq!(bl, "e8c8");
}

#[test]
fn lowercase_and_zero_castling_variants_fail_explicitly() {
    for tok in ["o-o", "o-o-o", "0-0", "0-0-0"] {
        let e = Pgn::validate_move(&Side::White(tok.to_string())).expect_err("variant rejected");
        assert_eq!(e, format!("expected O-O or O-O-O, got {tok}"));
        let e = Pgn::validate_move(&Side::Black(tok.to_string())).expect_err("variant rejected");
        assert_eq!(e, format!("expected O-O or O-O-O, got {tok}"));
    }
}

#[test]
fn coordinate_tokens_are_sanitized() {
    let r = Pgn::validate_move(&Side::White("Qe2xe4+".to_string())).unwrap();
    assert_eq!(r, "e2e4");
    let r = Pgn::validate_move(&Side::Black("e7-e8=Q".to_string())).unwrap();
    assert_eq!(r, "e7e8Q");
}

#[test]
fn wrong_length_token_reports_expected_length() {
    let e = Pgn::validate_sanitized_move("e4").expect_err("too short");
    assert_eq!(e, "expected e4 to have length of 4 or 5");
    let e = Pgn::validate_sanitized_move("e2e4e5q").expect_err("too long");
    assert_eq!(e, "expected e2e4e5q to have length of 4 or 5");
}

#[test]
fn each_bad_character_position_is_named() {
    let e = Pgn::validate_sanitized_move("z2x4").expect_err("bad files");
    assert!(e.contains("first and third char"), "message was: {e}");
    let e = Pgn::validate_sanitized_move("e0e4").expect_err("bad rank");
    assert!(e.contains("second and fourth char"), "message was: {e}");
    let e = Pgn::validate_sanitized_move("e2e4k").expect_err("bad promotion");
    assert!(e.contains("fifth char"), "message was: {e}");
}

#[test]
fn rank_nine_is_tolerated_by_shape_rules() {
    assert!(Pgn::validate_sanitized_move("e2e9").is_ok());
    assert!(Pgn::is_valid_rank('9'));
    assert!(!Pgn::is_valid_rank('0'));
    assert!(Pgn::is_valid_file('h'));
    assert!(!Pgn::is_valid_file('i'));
}

#[test]
fn move_numbers_and_ellipses_are_dropped() {
    let pgn = Pgn::from_str("12. e2e4 ... 13. e7e5").expect("valid");
    assert_eq!(pgn.moves().len(), 2);
    assert_eq!(pgn.moves()[0], "e2e4");
    assert_eq!(pgn.moves()[1], "e7e5");
}

#[test]
fn empty_input_yields_empty_sequence() {
    let pgn = Pgn::from_str("").expect("trivially valid");
    assert_eq!(pgn.moves().len(), 0);
}

#[test]
fn side_carries_its_token() {
    assert_eq!(Side::White("Nf3".to_string()).mov_ref(), "Nf3");
    assert_eq!(Side::Black("e5".to_string()).mov_ref(), "e5");
}

#[test]
fn sanitize_strips_piece_letter_and_decorations() {
    assert_eq!(Pgn::sanitize_move("Nxe4+"), "e4");
    assert_eq!(Pgn::sanitize_move("e2-e4"), "e2e4");
    assert_eq!(Pgn::sanitize_move("a7xb8=Q#"), "a7b8Q");
}

#[test]
fn four_char_coordinates_round_trip() {
    for s in ["a1a2", "e2e4", "h7h8", "b8c6"] {
        let m = Move::from_str(s).ok().expect("parses");
        assert_eq!(m.to_coord(), s);
    }
}

#[test]
fn promotion_letter_renders_in_lowercase() {
    let m = Move::from_str("e7e8Q").ok().expect("parses");
    assert_eq!(m.to_coord(), "e7e8q");
    let m = Move::from_str("e7e8q").ok().expect("parses");
    assert_eq!(m.to_coord(), "e7e8q");
}

#[test]
fn wrong_length_coordinate_fails_to_parse() {
    assert!(Move::from_str("e2e").is_err());
    assert!(Move::from_str("e2e4e5").is_err());
    assert!(Move::from_str("").is_err());
}

#[test]
fn error_message_accessor_matches_payload() {
    let err = Pgn::from_str("o-o").expect_err("bad castling variant");
    assert_eq!(err.message(), err.0);
    assert!(err.message().contains("expected O-O or O-O-O, got o-o"));
}

#[test]
fn aggregated_message_lists_every_offending_character() {
    let e = Pgn::validate_sanitized_move("z0e4").expect_err("two bad characters");
    assert_eq!(
        e,
        "first and third char must be any character between a-h, but got z\n\
         second and fourth char must be any digit between 1-9, but got 0"
    );
}

#[test]
fn error_blocks_carry_the_move_number_format() {
    let err = Pgn::from_str("o-o").expect_err("bad castling variant");
    assert_eq!(err.0, "expected O-O or O-O-O, got o-o\nmove num:1\n");
    let err = Pgn::from_str("e2e4 o-o z0e4").expect_err("two failures");
    assert_eq!(
        err.0,
        "expected O-O or O-O-O, got o-o\nmove num:2\n\
         first and third char must be any character between a-h, but got z\n\
         second and fourth char must be any digit between 1-9, but got 0\nmove num:3\n"
    );
}
