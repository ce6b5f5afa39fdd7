use chessland_puzzle_generator::engine::Evaluation;
use chessland_puzzle_generator::engine::best_move_marker;
use chessland_puzzle_generator::engine::eval_cmd;
use chessland_puzzle_generator::engine::eval_marker;
use chessland_puzzle_generator::engine::go_depth_cmd;
use chessland_puzzle_generator::engine::line_terminates;
use chessland_puzzle_generator::engine::new_game_cmd;
use chessland_puzzle_generator::engine::parse_best_move_line;
use chessland_puzzle_generator::engine::parse_eval_line;
use chessland_puzzle_generator::engine::position_cmd;
use chessland_puzzle_generator::engine::quit_cmd;
use chessland_puzzle_generator::engine::ready_cmd;
use chessland_puzzle_generator::engine::ready_marker;

#[test]
fn position_command_joins_moves() {
    let moves = vec!["e2e4".to_string(), "e7e5".to_string(), "g1f3".to_string()];
    assert_eq!(position_cmd(&moves), "position startpos moves e2e4 e7e5 g1f3");
    let none: Vec<String> = Vec::new();
    assert_eq!(position_cmd(&none), "position startpos moves");
}

#[test]
fn go_command_renders_depth() {
    assert_eq!(go_depth_cmd(1), "go depth 1");
    assert_eq!(go_depth_cmd(5), "go depth 5");
    assert_eq!(go_depth_cmd(250), "go depth 250");
}

#[test]
fn protocol_words_are_fixed() {
    assert_eq!(new_game_cmd(), "ucinewgame");
    assert_eq!(ready_cmd(), "isready");
    assert_eq!(ready_marker(), "readyok");
    assert_eq!(eval_cmd(), "eval");
    assert_eq!(eval_marker(), "Final");
    assert_eq!(best_move_marker(), "bestmove");
    assert_eq!(quit_cmd(), "quit");
}

#[test]
fn sentinel_detection_skips_blank_and_unrelated_lines() {
    assert!(line_terminates("readyok", "readyok"));
    assert!(line_terminates("  readyok \r", "readyok"));
    assert!(line_terminates("bestmove e2e4 ponder e7e5", "bestmove"));
    assert!(!line_terminates("", "readyok"));
    assert!(!line_terminates("   \t", "readyok"));
    assert!(!line_terminates("info depth 1 seldepth 1", "bestmove"));
}

#[test]
fn best_move_is_second_field() {
    let m = parse_best_move_line("bestmove e2e4 ponder e7e5").expect("has field");
    assert_eq!(m, "e2e4");
    let m = parse_best_move_line("  bestmove   g8f6").expect("has field");
    assert_eq!(m, "g8f6");
    assert!(parse_best_move_line("bestmove").is_err());
    assert!(parse_best_move_line("").is_err());
}

#[test]
fn evaluation_score_is_third_field_in_centipawns() {
    let e = parse_eval_line("Final evaluation +0.25 (white side)").expect("parses");
    assert_eq!(e, Evaluation::Score(25));
    let e = parse_eval_line("Final evaluation -1.50 (white side)").expect("parses");
    assert_eq!(e, Evaluation::Score(-150));
    let e = parse_eval_line("Final evaluation -1.5 (white side)").expect("parses");
    assert_eq!(e, Evaluation::Score(-150));
    let e = parse_eval_line("Final evaluation 3 (white side)").expect("parses");
    assert_eq!(e, Evaluation::Score(300));
    let e = parse_eval_line("Final evaluation +12.07 (white side)").expect("parses");
    assert_eq!(e, Evaluation::Score(1207));
}

#[test]
fn check_marker_wins_over_score_parsing() {
    let e = parse_eval_line("Final evaluation: none (in check)").expect("parses");
    assert_eq!(e, Evaluation::Check);
}

#[test]
fn malformed_evaluation_output_is_an_error() {
    assert!(parse_eval_line("Final evaluation").is_err());
    assert!(parse_eval_line("Final evaluation abc (white side)").is_err());
    assert!(parse_eval_line("").is_err());
    let err = parse_eval_line("Final evaluation abc (x)").expect_err("malformed");
    assert!(err.message().contains("unexpected engine output"));
}
