use chessland_puzzle_generator::engine::Evaluation;
use chessland_puzzle_generator::puzzle::Puzzle;
use chessland_puzzle_generator::puzzle::PuzzleLevel;
use chessland_puzzle_generator::selector::Candidate;
use chessland_puzzle_generator::selector::Delta;
use chessland_puzzle_generator::selector::EngineQuery;
use chessland_puzzle_generator::selector::EngineReply;
use chessland_puzzle_generator::selector::SelectStep;
use chessland_puzzle_generator::selector::Selector;
use chessland_puzzle_generator::selector::compute_delta;
use chessland_puzzle_generator::selector::highest_delta_position_for_side;
use chessland_puzzle_generator::selector::rand_range_of_moves;

#[test]
fn delta_of_two_scores_is_absolute_difference() {
    let d = compute_delta(&Evaluation::Score(150), &Evaluation::Score(-30));
    assert_eq!(d, Delta::Finite(180));
    let d = compute_delta(&Evaluation::Score(-30), &Evaluation::Score(150));
    assert_eq!(d, Delta::Finite(180));
}

#[test]
fn delta_is_symmetric_under_sign_negation() {
    for (a, b) in [(150, -30), (0, 7), (-250, -50), (1000, 1000)] {
        let d1 = compute_delta(&Evaluation::Score(a), &Evaluation::Score(b));
        let d2 = compute_delta(&Evaluation::Score(-a), &Evaluation::Score(-b));
        assert_eq!(d1, d2);
    }
}

#[test]
fn delta_against_check_uses_absolute_best_value() {
    let d = compute_delta(&Evaluation::Check, &Evaluation::Score(-70));
    assert_eq!(d, Delta::Finite(70));
    let d = compute_delta(&Evaluation::Check, &Evaluation::Score(70));
    assert_eq!(d, Delta::Finite(70));
}

#[test]
fn delta_is_unbounded_when_best_line_checks() {
    assert_eq!(compute_delta(&Evaluation::Score(5), &Evaluation::Check), Delta::Infinite);
    assert_eq!(compute_delta(&Evaluation::Check, &Evaluation::Check), Delta::Infinite);
}

#[test]
fn scan_window_starts_at_a_third_and_stays_in_range() {
    let moves: Vec<String> = (0..15).map(|i| format!("m{i}")).collect();
    for _ in 0..200 {
        let (from, to) = rand_range_of_moves(&moves);
        assert_eq!(from, 5);
        assert!(from < to);
        assert!(to <= 13);
    }
    let moves: Vec<String> = (0..40).map(|i| format!("m{i}")).collect();
    for _ in 0..200 {
        let (from, to) = rand_range_of_moves(&moves);
        assert_eq!(from, 13);
        assert!(from < to);
        assert!(to <= 38);
    }
}

#[test]
fn first_greatest_delta_wins_among_matching_side() {
    let cands = vec![
        Candidate { idx: 5, delta: Delta::Finite(3) },
        Candidate { idx: 6, delta: Delta::Finite(9) },
        Candidate { idx: 7, delta: Delta::Finite(3) },
        Candidate { idx: 9, delta: Delta::Finite(1) },
    ];
    // to = 10: the hunted side matches odd indices, so index 6 is filtered out.
    let r = highest_delta_position_for_side(&cands, 10);
    assert_eq!(r, 0);
    let cands = vec![
        Candidate { idx: 5, delta: Delta::Finite(3) },
        Candidate { idx: 7, delta: Delta::Infinite },
    ];
    let r = highest_delta_position_for_side(&cands, 10);
    assert_eq!(r, 1);
}

/// Drives a selection to completion against a stubbed engine that
/// evaluates every position as equal and always proposes the same move.
fn run_selection(lvl: PuzzleLevel, moves: Vec<String>, from: usize, to: usize) -> Puzzle {
    let (mut sel, mut q) = Selector::new(lvl, moves, from, to);
    loop {
        let reply = match &q {
            EngineQuery::Evaluate { moves: _ } => EngineReply::Evaluation(Evaluation::Score(0)),
            EngineQuery::BestMove { moves: _, depth: _ } => {
                EngineReply::BestMove("a1a2".to_string())
            },
        };
        match sel.step(reply) {
            SelectStep::Query(q2) => {
                q = q2;
            },
            SelectStep::Done(p) => {
                return p;
            },
        }
    }
}

#[test]
fn solution_length_scales_with_level() {
    let moves: Vec<String> = (0..20).map(|i| format!("m{i}")).collect();
    // All deltas are equal, so the first candidate on the hunted side wins:
    // with the window [5, 10) the hunted side matches odd indices, the
    // chosen blunder is move 5, and the kept prefix has 6 moves.
    let p = run_selection(PuzzleLevel::Easy, moves.clone(), 5, 10);
    assert_eq!(p.notation.len(), 6 + 2);
    let p = run_selection(PuzzleLevel::Medium, moves.clone(), 5, 10);
    assert_eq!(p.notation.len(), 6 + 4);
    let p = run_selection(PuzzleLevel::Hard, moves.clone(), 5, 10);
    assert_eq!(p.notation.len(), 6 + 6);
}

#[test]
fn puzzle_keeps_prefix_start_position_and_solution_tail() {
    let moves: Vec<String> = (0..20).map(|i| format!("m{i}")).collect();
    let p = run_selection(PuzzleLevel::Medium, moves.clone(), 5, 10);
    assert_eq!(p.lvl, PuzzleLevel::Medium);
    for i in 0..6 {
        assert_eq!(p.notation[i], moves[i]);
    }
    for i in 6..10 {
        assert_eq!(p.notation[i], "a1a2");
    }
    assert_eq!(p.start_pos, moves[4]);
}

#[test]
fn queries_follow_the_protocol_order() {
    let moves: Vec<String> = (0..12).map(|i| format!("m{i}")).collect();
    let (mut sel, q) = Selector::new(PuzzleLevel::Easy, moves.clone(), 4, 6);
    // First query: evaluate the position after move 4.
    match &q {
        EngineQuery::Evaluate { moves: m } => assert_eq!(m.len(), 5),
        _ => panic!("expected an evaluation query"),
    }
    // Reply; next must be a shallow best-move search on the same position.
    let s = sel.step(EngineReply::Evaluation(Evaluation::Score(10)));
    match &s {
        SelectStep::Query(EngineQuery::BestMove { moves: m, depth }) => {
            assert_eq!(m.len(), 5);
            assert_eq!(*depth, 1);
        },
        _ => panic!("expected a best-move query"),
    }
    // Reply; next evaluates the position after the proposed best move.
    let s = sel.step(EngineReply::BestMove("h2h4".to_string()));
    match &s {
        SelectStep::Query(EngineQuery::Evaluate { moves: m }) => {
            assert_eq!(m.len(), 6);
            assert_eq!(m[5], "h2h4");
        },
        _ => panic!("expected an evaluation query"),
    }
}

#[test]
fn level_numbers() {
    assert_eq!(PuzzleLevel::Easy.as_number(), 1);
    assert_eq!(PuzzleLevel::Medium.as_number(), 2);
    assert_eq!(PuzzleLevel::Hard.as_number(), 3);
}

#[test]
fn extension_searches_at_full_depth() {
    let moves: Vec<String> = (0..12).map(|i| format!("m{i}")).collect();
    let (mut sel, _q) = Selector::new(PuzzleLevel::Easy, moves, 4, 5);
    let s = sel.step(EngineReply::Evaluation(Evaluation::Score(0)));
    assert!(matches!(s, SelectStep::Query(EngineQuery::BestMove { depth: 1, .. })));
    let s = sel.step(EngineReply::BestMove("h2h4".to_string()));
    assert!(matches!(s, SelectStep::Query(EngineQuery::Evaluate { .. })));
    // The window is exhausted: the selector picks the blunder (move 4)
    // and starts extending the solution at full depth.
    let s = sel.step(EngineReply::Evaluation(Evaluation::Score(-90)));
    match &s {
        SelectStep::Query(EngineQuery::BestMove { moves: m, depth }) => {
            assert_eq!(*depth, 5);
            assert_eq!(m.len(), 5);
        }
        _ => panic!("expected the first solution search"),
    }
}
