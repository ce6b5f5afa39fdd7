use chessland_puzzle_generator::board::replay_line;
use chessland_puzzle_generator::pgn::move_sequence;
use chessland_puzzle_generator::pgn::split_pgns;
use chessland_puzzle_generator::pgn::strip_metadata;
use chessland_puzzle_generator::validate::validate;
use chessland_puzzle_generator::validate::validate_tokens;

#[test]
fn metadata_and_empty_lines_are_stripped() {
    let text = "[Event \"x\"]\n[Site \"y\"]\n\n1. e4 e5 1-0\n";
    let lines = strip_metadata(text);
    assert_eq!(lines, vec!["1. e4 e5 1-0\n".to_string()]);
}

#[test]
fn carriage_returns_are_removed() {
    let lines = strip_metadata("1. e4\r\ne5 1-0\r\n");
    assert_eq!(lines, vec!["1. e4\n".to_string(), "e5 1-0\n".to_string()]);
}

#[test]
fn games_split_at_result_markers() {
    let text = "[A \"1\"]\n1. e4 e5\n2. Nf3 1-0\n[B \"2\"]\n1. d4 d5 0-1\n";
    let games = split_pgns(text);
    assert_eq!(games.len(), 2);
    assert_eq!(games[0], "1. e4 e5\n2. Nf3 1-0\n");
    assert_eq!(games[1], "1. d4 d5 0-1\n");
}

#[test]
fn unfinished_trailing_text_is_dropped() {
    let games = split_pgns("1. e4 e5 1-0\n1. d4 d5\n");
    assert_eq!(games.len(), 1);
}

#[test]
fn draw_marker_closes_a_game() {
    let games = split_pgns("1. e4 e5 1/2-1/2\n");
    assert_eq!(games.len(), 1);
}

#[test]
fn move_sequence_drops_numbers_and_result() {
    let seq = move_sequence("1.e4 e5 2.Nf3 Nc6 1-0");
    assert_eq!(seq, vec!["e4", "e5", "Nf3", "Nc6"]);
}

#[test]
fn move_sequence_keeps_plain_tokens() {
    let seq = move_sequence("e4 1-0");
    assert_eq!(seq, vec!["e4"]);
}

#[test]
fn short_games_are_discarded() {
    let short: Vec<String> = (0..29).map(|_| "a2a3".to_string()).collect();
    let kept = validate(vec![short]);
    assert_eq!(kept.len(), 0);
}

#[test]
fn long_coordinate_games_are_kept() {
    let game: Vec<String> = (0..30).map(|_| "a2a3".to_string()).collect();
    let kept = validate(vec![game.clone()]);
    assert_eq!(kept.len(), 1);
    assert_eq!(kept[0], game);
}

#[test]
fn games_with_invalid_tokens_are_discarded() {
    let mut game: Vec<String> = (0..30).map(|_| "a2a3".to_string()).collect();
    game[7] = "Zz".to_string();
    let kept = validate(vec![game]);
    assert_eq!(kept.len(), 0);
}

#[test]
fn san_games_convert_during_validation() {
    let tokens: Vec<String> = ["e4", "e5", "Nf3", "Nc6"].iter().map(|s| s.to_string()).collect();
    let converted = validate_tokens(&tokens).expect("legal opening");
    assert_eq!(converted, vec!["e2e4", "e7e5", "g1f3", "b8c6"]);
}

#[test]
fn replay_accepts_legal_lines_and_reports_the_first_illegal_move() {
    let line: Vec<String> = ["e2e4", "e7e5", "g1f3"].iter().map(|s| s.to_string()).collect();
    assert!(replay_line(&line).is_ok());
    let line: Vec<String> = ["e2e4", "e2e4"].iter().map(|s| s.to_string()).collect();
    assert_eq!(replay_line(&line).err(), Some(1));
    let line: Vec<String> = ["e3e4"].iter().map(|s| s.to_string()).collect();
    assert_eq!(replay_line(&line).err(), Some(0));
}
