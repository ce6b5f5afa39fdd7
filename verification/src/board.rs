//! The board oracle: chess legality, SAN resolution and move application
//! are delegated to the shakmaty crate; positions flow through the
//! library as opaque values.

use shakmaty::Position;
use vstd::prelude::*;

verus! {

#[verifier::external_type_specification]
#[verifier::external_body]
pub struct ExChess(shakmaty::Chess);

/// Relies on shakmaty::Chess::default: the standard starting position.
#[verifier::external_body]
pub fn start_board() -> shakmaty::Chess {
    shakmaty::Chess::default()
}

/// Relies on shakmaty's San parsing, San::to_move and Position::play:
/// resolves one SAN token against the position, returning the move in
/// coordinate form and the successor position, or nothing when the token
/// is not a legal move there.
#[verifier::external_body]
pub(crate) fn san_step(board: &shakmaty::Chess, tok: &str) -> Option<(String, shakmaty::Chess)> {
    let san: shakmaty::san::San = tok.parse().ok()?;
    let m = san.to_move(board).ok()?;
    let next = board.clone().play(m).ok()?;
    let uci = m.to_uci(shakmaty::CastlingMode::Standard).to_string();
    Some((uci, next))
}

/// Relies on shakmaty's UCI parsing, UciMove::to_move and
/// Position::play: applies one coordinate move when it is legal.
#[verifier::external_body]
pub(crate) fn apply_uci(board: &shakmaty::Chess, mv: &str) -> Option<shakmaty::Chess> {
    let uci: shakmaty::uci::UciMove = mv.parse().ok()?;
    let m = uci.to_move(board).ok()?;
    board.clone().play(m).ok()
}

/// Replays a coordinate move sequence from the start position through
/// the oracle; the index of the first move the oracle rejects is the
/// error. A rejection of previously validated moves signals an internal
/// inconsistency between validator and oracle.
pub fn replay_line(moves: &Vec<String>) -> (r: Result<shakmaty::Chess, usize>)
    ensures
        r matches Err(i) ==> i < moves@.len(),
        moves@.len() == 0 ==> r is Ok,
{
    let mut board = start_board();
    let mut i: usize = 0;
    while i < moves.len()
        invariant
            i <= moves@.len(),
        decreases moves@.len() - i,
    {
        match apply_uci(&board, moves[i].as_str()) {
            Some(b) => {
                board = b;
            },
            None => {
                return Err(i);
            },
        }
        i = i + 1;
    }
    Ok(board)
}

} // verus!
