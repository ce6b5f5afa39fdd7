//! The notation validator pipeline: tokenization of raw move text,
//! dropping of move-number markers, per-token validation with the board
//! oracle as fallback for algebraic notation, and the batch validation
//! used by file ingestion.

use vstd::prelude::*;

use crate::board::apply_uci;
use crate::board::san_step;
use crate::board::start_board;
use crate::notation::InvalidNotationError;
use crate::notation::Pgn;
use crate::notation::Side;
use crate::notation::bad_castle_msg;
use crate::notation::castle_coord;
use crate::notation::coord_ok;
use crate::notation::is_bad_castle_token;
use crate::notation::is_castle_token;
use crate::notation::sanitize_spec;
use crate::notation::shape_err_msg;
use crate::text::dec_digits;
use crate::text::is_u64_numeral;
use crate::text::is_u64_numeral_exec;
use crate::text::split_ws;
use crate::text::str_eq;
use crate::text::tokenize;
use crate::text::usize_to_string;
use crate::text::views;

verus! {

/// A token that names a move: not an ellipsis continuation and not a
/// move-number marker such as `12.`.
pub open spec fn is_move_token(t: Seq<char>) -> bool {
    t != "..."@ && !(t.len() > 0 && t.last() == '.' && is_u64_numeral(t.drop_last()))
}

/// The move tokens of a token list, in order.
pub open spec fn filtered_tokens(ts: Seq<Seq<char>>) -> Seq<Seq<char>>
    decreases ts.len(),
{
    if ts.len() == 0 {
        Seq::<Seq<char>>::empty()
    } else if is_move_token(ts.last()) {
        filtered_tokens(ts.drop_last()) + seq![ts.last()]
    } else {
        filtered_tokens(ts.drop_last())
    }
}

/// The move tokens of raw move text.
pub open spec fn move_tokens(s: Seq<char>) -> Seq<Seq<char>> {
    filtered_tokens(split_ws(s))
}

/// A token that the shape rules alone decide: a castling token, or one
/// whose sanitized form is a canonical coordinate move.
pub open spec fn pure_valid(t: Seq<char>) -> bool {
    is_castle_token(t) || (!is_bad_castle_token(t) && coord_ok(sanitize_spec(t)))
}

/// The canonical coordinate of a token the shape rules decide.
pub open spec fn pure_coord(t: Seq<char>, white: bool) -> Seq<char> {
    if is_castle_token(t) {
        castle_coord(white, t)
    } else {
        sanitize_spec(t)
    }
}

/// The notice recorded when the oracle resolves a token to something the
/// shape rules reject: an internal validator/oracle inconsistency.
pub open spec fn disagree_msg(t: Seq<char>) -> Seq<char> {
    "validator and oracle disagree on "@ + t
}

/// One reported failure: the complaint followed by the 1-based move
/// number on its own line.
pub open spec fn err_block(msg: Seq<char>, num: int) -> Seq<char> {
    msg + "\nmove num:"@ + dec_digits(num as nat) + "\n"@
}

/// The aggregated error text of a list of reported failures, in order.
pub open spec fn blocks_concat(fails: Seq<(int, Seq<char>)>) -> Seq<char>
    decreases fails.len(),
{
    if fails.len() == 0 {
        Seq::<char>::empty()
    } else {
        blocks_concat(fails.drop_last()) + err_block(fails.last().1, fails.last().0 + 1)
    }
}

/// The complaints validation may reject token `t` with: the
/// castling-variant message, the shape complaint of its sanitized form,
/// or the validator/oracle disagreement notice.
pub open spec fn token_fail_msg_ok(t: Seq<char>, m: Seq<char>) -> bool {
    if is_bad_castle_token(t) {
        m == bad_castle_msg(t)
    } else {
        m == shape_err_msg(t) || m == disagree_msg(t)
    }
}

/// The reported failures are well-formed for the given tokens: strictly
/// increasing token positions, each a token the shape rules do not
/// accept, each with one of its allowed complaints.
pub open spec fn fails_wf(fails: Seq<(int, Seq<char>)>, tokens: Seq<Seq<char>>) -> bool {
    &&& forall|k: int| 0 <= k < fails.len() ==> 0 <= (#[trigger] fails[k]).0 < tokens.len()
    &&& forall|k: int| 0 < k < fails.len() ==> fails[k - 1].0 < (#[trigger] fails[k]).0
    &&& forall|k: int| 0 <= k < fails.len() ==> !pure_valid(tokens[(#[trigger] fails[k]).0])
    &&& forall|k: int|
        0 <= k < fails.len() ==> token_fail_msg_ok(
            tokens[(#[trigger] fails[k]).0],
            fails[k].1,
        )
}

/// Some reported failure stands at token position `j`.
pub open spec fn reports_position(fails: Seq<(int, Seq<char>)>, j: int) -> bool {
    exists|k: int| 0 <= k < fails.len() && (#[trigger] fails[k]).0 == j
}

proof fn lemma_reports_push(fails: Seq<(int, Seq<char>)>, x: (int, Seq<char>))
    ensures
        forall|j: int| reports_position(fails, j) ==> reports_position(fails.push(x), j),
        reports_position(fails.push(x), x.0),
{
    let f2 = fails.push(x);
    assert(f2[fails.len() as int] == x);
    assert forall|j: int| reports_position(fails, j) implies reports_position(f2, j) by {
        let k = choose|k: int| 0 <= k < fails.len() && (#[trigger] fails[k]).0 == j;
        assert(f2[k] == fails[k]);
    }
}

proof fn lemma_castle_coords_ok()
    ensures
        coord_ok("e1g1"@),
        coord_ok("e8g8"@),
        coord_ok("e1c1"@),
        coord_ok("e8c8"@),
{
    reveal_strlit("e1g1");
    reveal_strlit("e8g8");
    reveal_strlit("e1c1");
    reveal_strlit("e8c8");
}

proof fn lemma_fails_push(
    fails: Seq<(int, Seq<char>)>,
    tokens: Seq<Seq<char>>,
    j: int,
    m: Seq<char>,
)
    requires
        fails_wf(fails, tokens),
        forall|k: int| 0 <= k < fails.len() ==> (#[trigger] fails[k]).0 < j,
        0 <= j < tokens.len(),
        !pure_valid(tokens[j]),
        token_fail_msg_ok(tokens[j], m),
    ensures
        fails_wf(fails.push((j, m)), tokens),
        blocks_concat(fails.push((j, m))) == blocks_concat(fails) + err_block(m, j + 1),
        forall|k: int| 0 <= k < fails.push((j, m)).len() ==> (#[trigger] fails.push((j, m))[k]).0
            < j + 1,
{
    let f2 = fails.push((j, m));
    assert(f2.drop_last() =~= fails);
    assert(f2.last() == (j, m));
    assert forall|k: int| 0 <= k < f2.len() implies 0 <= (#[trigger] f2[k]).0 < tokens.len()
        && (#[trigger] f2[k]).0 < j + 1 && !pure_valid(tokens[f2[k].0]) && token_fail_msg_ok(
        tokens[f2[k].0],
        f2[k].1,
    ) by {
        if k < fails.len() {
            assert(f2[k] == fails[k]);
        }
    }
    assert forall|k: int| 0 < k < f2.len() implies f2[k - 1].0 < (#[trigger] f2[k]).0 by {
        if k < fails.len() {
            assert(f2[k] == fails[k]);
            assert(f2[k - 1] == fails[k - 1]);
        } else {
            assert(f2[k - 1] == fails[k - 1]);
        }
    }
}

fn is_move_token_exec(tok: &String) -> (r: bool)
    ensures
        r == is_move_token(tok@),
{
    if str_eq(tok.as_str(), "...") {
        return false;
    }
    let n = tok.as_str().unicode_len();
    if n > 0 && tok.as_str().get_char(n - 1) == '.' {
        let prefix = tok.as_str().substring_char(0, n - 1);
        proof {
            assert(prefix@ =~= tok@.drop_last());
        }
        if is_u64_numeral_exec(prefix) {
            return false;
        }
    }
    true
}

/// Drops ellipsis continuations and move-number markers from a token
/// list.
fn filter_move_tokens(ts: &Vec<String>) -> (r: Vec<String>)
    ensures
        views(r@) == filtered_tokens(views(ts@)),
{
    let mut r: Vec<String> = Vec::new();
    let mut i: usize = 0;
    proof {
        assert(views(ts@).subrange(0, 0) =~= Seq::<Seq<char>>::empty());
        assert(views(r@) =~= filtered_tokens(views(ts@).subrange(0, 0)));
    }
    while i < ts.len()
        invariant
            i <= ts@.len(),
            views(r@) == filtered_tokens(views(ts@).subrange(0, i as int)),
        decreases ts@.len() - i,
    {
        let keep = is_move_token_exec(&ts[i]);
        proof {
            let vs = views(ts@);
            let p = vs.subrange(0, i + 1);
            assert(p.drop_last() =~= vs.subrange(0, i as int));
            assert(p.last() == ts@[i as int]@);
        }
        if keep {
            let m = ts[i].clone();
            proof {
                assert(views(r@.push(m)) =~= views(r@) + seq![m@]);
            }
            r.push(m);
        }
        i = i + 1;
    }
    proof {
        assert(views(ts@).subrange(0, ts@.len() as int) =~= views(ts@));
    }
    r
}

fn is_bad_castle_exec(tok: &str) -> (r: bool)
    ensures
        r == is_bad_castle_token(tok@),
{
    str_eq(tok, "o-o") || str_eq(tok, "o-o-o") || str_eq(tok, "0-0") || str_eq(tok, "0-0-0")
}

/// Appends one failing token's message together with its 1-based move
/// number to the aggregated error text.
fn record_error(errors: &mut String, erred: &mut bool, msg: &str, num: usize)
    ensures
        final(errors)@ == old(errors)@ + err_block(msg@, num as int),
        final(errors)@.len() > 0,
        *final(erred),
{
    proof {
        reveal_strlit("\nmove num:");
        reveal_strlit("\n");
    }
    errors.append(msg);
    errors.append("\nmove num:");
    let n = usize_to_string(num);
    errors.append(n.as_str());
    errors.append("\n");
    *erred = true;
    proof {
        assert(errors@ =~= old(errors)@ + err_block(msg@, num as int));
    }
}

/// Resolves one token that the shape rules rejected against the board
/// oracle; a resolution the shape rules reject in turn is an internal
/// inconsistency.
fn resolve_with_oracle(board: &shakmaty::Chess, tok: &String, shape_msg: String) -> (r: Result<
    (String, shakmaty::Chess),
    String,
>)
    requires
        shape_msg@ == shape_err_msg(tok@),
    ensures
        r matches Ok(p) ==> coord_ok(p.0@),
        r matches Err(m) ==> m@ == shape_err_msg(tok@) || m@ == disagree_msg(tok@),
{
    match san_step(board, tok.as_str()) {
        Some(pair) => {
            let (uci, b2) = pair;
            match Pgn::validate_sanitized_move(uci.as_str()) {
                Ok(_) => Ok((uci, b2)),
                Err(_) => {
                    let mut m = String::from_str("validator and oracle disagree on ");
                    m.append(tok.as_str());
                    Err(m)
                },
            }
        },
        None => Err(shape_msg),
    }
}

/// Validates one game's move tokens, alternating sides starting with
/// White. Castling shorthand and coordinate-shaped tokens are decided by
/// the shape rules alone; algebraic tokens are resolved against the
/// board oracle on the replayed position. Every failing token is
/// reported, each with its move number; canonical coordinates come back
/// only when every token passes.
#[verifier::rlimit(100)]
pub fn validate_tokens(tokens: &Vec<String>) -> (r: Result<Vec<String>, InvalidNotationError>)
    ensures
        r matches Ok(v) ==> v@.len() == tokens@.len(),
        r matches Ok(v) ==> forall|k: int|
            0 <= k < v@.len() ==> coord_ok(#[trigger] views(v@)[k]),
        r matches Ok(v) ==> forall|k: int|
            0 <= k < v@.len() && pure_valid(views(tokens@)[k]) ==> #[trigger] views(v@)[k]
                == pure_coord(views(tokens@)[k], k % 2 == 0),
        (forall|k: int| 0 <= k < tokens@.len() ==> pure_valid(#[trigger] views(tokens@)[k]))
            ==> r is Ok,
        (exists|k: int|
            0 <= k < tokens@.len() && is_bad_castle_token(#[trigger] views(tokens@)[k]))
            ==> r is Err,
        r matches Err(e) ==> e.0@.len() > 0,
        r matches Err(e) ==> exists|fails: Seq<(int, Seq<char>)>|
            {
                &&& fails.len() > 0
                &&& e.0@ == blocks_concat(fails)
                &&& fails_wf(fails, views(tokens@))
                &&& forall|j: int|
                    0 <= j < tokens@.len() && is_bad_castle_token(#[trigger] views(tokens@)[j])
                        ==> reports_position(fails, j)
            },
{
    let n = tokens.len();
    let mut out: Vec<String> = Vec::new();
    let mut errors = String::new();
    let mut erred = false;
    let ghost mut fails: Seq<(int, Seq<char>)> = Seq::empty();
    let mut board = start_board();
    let mut i: usize = 0;
    proof {
        assert(errors@ =~= blocks_concat(fails));
    }
    while i < n
        invariant
            i <= n == tokens@.len(),
            erred ==> errors@.len() > 0,
            errors@ == blocks_concat(fails),
            erred <==> fails.len() > 0,
            fails_wf(fails, views(tokens@)),
            forall|k: int| 0 <= k < fails.len() ==> (#[trigger] fails[k]).0 < i,
            forall|j: int|
                0 <= j < i && is_bad_castle_token(#[trigger] views(tokens@)[j])
                    ==> reports_position(fails, j),

            erred ==> exists|k: int|
                0 <= k < i && !pure_valid(#[trigger] views(tokens@)[k]),
            !erred ==> out@.len() == i,
            !erred ==> forall|k: int| 0 <= k < i ==> coord_ok(#[trigger] views(out@)[k]),
            !erred ==> forall|k: int|
                0 <= k < i && pure_valid(views(tokens@)[k]) ==> #[trigger] views(out@)[k]
                    == pure_coord(views(tokens@)[k], k % 2 == 0),
            !erred ==> forall|k: int|
                0 <= k < i ==> !is_bad_castle_token(#[trigger] views(tokens@)[k]),
        decreases n - i,
    {
        let white = i % 2 == 0;
        let side = if white {
            Side::White(tokens[i].clone())
        } else {
            Side::Black(tokens[i].clone())
        };
        proof {
            lemma_castle_coords_ok();
            assert(views(tokens@)[i as int] == tokens@[i as int]@);
        }
        match Pgn::validate_move(&side) {
            Ok(coord) => {
                match apply_uci(&board, coord.as_str()) {
                    Some(b) => {
                        board = b;
                    },
                    None => {},
                }
                proof {
                    assert(views(out@.push(coord)) =~= views(out@) + seq![coord@]);
                }
                out.push(coord);
            },
            Err(msg) => {
                proof {
                    assert(views(tokens@)[i as int] == tokens@[i as int]@);
                }
                if is_bad_castle_exec(tokens[i].as_str()) {
                    proof {
                        assert(!pure_valid(views(tokens@)[i as int]));
                        assert(token_fail_msg_ok(views(tokens@)[i as int], msg@));
                        lemma_fails_push(fails, views(tokens@), i as int, msg@);
                        lemma_reports_push(fails, (i as int, msg@));
                        fails = fails.push((i as int, msg@));
                    }
                    record_error(&mut errors, &mut erred, msg.as_str(), i + 1);
                } else {
                    proof {
                        assert(!pure_valid(views(tokens@)[i as int]));
                    }
                    match resolve_with_oracle(&board, &tokens[i], msg) {
                        Ok(pair) => {
                            let (uci, b2) = pair;
                            board = b2;
                            proof {
                                assert(views(out@.push(uci)) =~= views(out@) + seq![uci@]);
                            }
                            out.push(uci);
                        },
                        Err(m) => {
                            proof {
                                assert(token_fail_msg_ok(views(tokens@)[i as int], m@));
                                lemma_fails_push(fails, views(tokens@), i as int, m@);
                                lemma_reports_push(fails, (i as int, m@));
                                fails = fails.push((i as int, m@));
                            }
                            record_error(&mut errors, &mut erred, m.as_str(), i + 1);
                        },
                    }
                }
            },
        }
        i = i + 1;
    }
    if erred {
        proof {
            assert(fails_wf(fails, views(tokens@)));
        }
        Err(InvalidNotationError(errors))
    } else {
        Ok(out)
    }
}

impl Pgn {
    /// Validates raw move text: splits it on whitespace, drops
    /// move-number markers and ellipses, and validates each remaining
    /// token in turn, collecting every failure into one error.
    pub fn from_str(s: &str) -> (r: Result<Pgn, InvalidNotationError>)
        ensures
            r matches Ok(p) ==> p@.len() == move_tokens(s@).len(),
            r matches Ok(p) ==> forall|k: int| 0 <= k < p@.len() ==> coord_ok(#[trigger] p@[k]),
            r matches Ok(p) ==> forall|k: int|
                0 <= k < p@.len() && pure_valid(move_tokens(s@)[k]) ==> #[trigger] p@[k]
                    == pure_coord(move_tokens(s@)[k], k % 2 == 0),
            (forall|k: int| 0 <= k < move_tokens(s@).len() ==> pure_valid(
                #[trigger] move_tokens(s@)[k],
            )) ==> r is Ok,
            (exists|k: int|
                0 <= k < move_tokens(s@).len() && is_bad_castle_token(
                    #[trigger] move_tokens(s@)[k],
                )) ==> r is Err,
            r matches Err(e) ==> e.0@.len() > 0,
            r matches Err(e) ==> exists|fails: Seq<(int, Seq<char>)>|
                {
                    &&& fails.len() > 0
                    &&& e.0@ == blocks_concat(fails)
                    &&& fails_wf(fails, move_tokens(s@))
                    &&& forall|j: int|
                        0 <= j < move_tokens(s@).len() && is_bad_castle_token(
                            #[trigger] move_tokens(s@)[j],
                        ) ==> reports_position(fails, j)
                },
    {
        let ts = tokenize(s);
        let kept = filter_move_tokens(&ts);
        proof {
            assert(views(kept@) == move_tokens(s@));
        }
        match validate_tokens(&kept) {
            Ok(v) => {
                proof {
                    assert(Pgn(v)@ == views(v@));
                }
                Ok(Pgn(v))
            },
            Err(e) => Err(e),
        }
    }
}

/// Every token of the list is one the shape rules alone accept.
pub open spec fn all_pure(ts: Seq<Seq<char>>) -> bool {
    forall|l: int| 0 <= l < ts.len() ==> pure_valid(#[trigger] ts[l])
}

/// Some kept game comes from input position `j`.
pub open spec fn maps_source(src_idx: Seq<int>, j: int) -> bool {
    exists|k: int| 0 <= k < src_idx.len() && #[trigger] src_idx[k] == j
}

/// The games of `r` each come from a distinct game of `input`, in
/// order: the game kept at `k` has as many moves as the input game at
/// `src_idx[k]`, which meets the length floor of fifteen full moves, and
/// every move at a position its source token decides by shape alone is
/// that token's canonical coordinate.
pub open spec fn kept_from(r: Seq<Vec<String>>, input: Seq<Vec<String>>, src_idx: Seq<int>) -> bool {
    &&& src_idx.len() == r.len()
    &&& forall|k: int| 0 <= k < src_idx.len() ==> 0 <= #[trigger] src_idx[k] < input.len()
    &&& forall|k: int| 0 < k < src_idx.len() ==> src_idx[k - 1] < #[trigger] src_idx[k]
    &&& forall|k: int|
        0 <= k < src_idx.len() ==> #[trigger] r[k]@.len() == input[src_idx[k]]@.len()
        && input[src_idx[k]]@.len() / 2 >= 15
    &&& forall|k: int, l: int|
        0 <= k < src_idx.len() && 0 <= l < input[src_idx[k]]@.len() && pure_valid(
            views(input[src_idx[k]]@)[l],
        ) ==> #[trigger] views(r[k]@)[l] == pure_coord(views(input[src_idx[k]]@)[l], l % 2 == 0)
}

proof fn lemma_maps_source_push(src_idx: Seq<int>, x: int)
    ensures
        forall|j: int| maps_source(src_idx, j) ==> maps_source(src_idx.push(x), j),
        maps_source(src_idx.push(x), x),
{
    let idx2 = src_idx.push(x);
    assert(idx2[src_idx.len() as int] == x);
    assert forall|j: int| maps_source(src_idx, j) implies maps_source(idx2, j) by {
        let k = choose|k: int| 0 <= k < src_idx.len() && #[trigger] src_idx[k] == j;
        assert(idx2[k] == src_idx[k]);
    }
}

proof fn lemma_kept_from_push(
    r: Seq<Vec<String>>,
    input: Seq<Vec<String>>,
    src_idx: Seq<int>,
    v: Vec<String>,
    i: int,
)
    requires
        kept_from(r, input, src_idx),
        forall|k: int| 0 <= k < src_idx.len() ==> #[trigger] src_idx[k] < i,
        0 <= i < input.len(),
        v@.len() == input[i]@.len(),
        input[i]@.len() / 2 >= 15,
        forall|l: int|
            0 <= l < input[i]@.len() && pure_valid(views(input[i]@)[l]) ==> #[trigger] views(
                v@,
            )[l] == pure_coord(views(input[i]@)[l], l % 2 == 0),
    ensures
        kept_from(r.push(v), input, src_idx.push(i)),
{
    let r2 = r.push(v);
    let idx2 = src_idx.push(i);
    assert forall|k: int| 0 <= k < idx2.len() implies 0 <= #[trigger] idx2[k] < input.len() by {
        if k < src_idx.len() {
            assert(idx2[k] == src_idx[k]);
        }
    }
    assert forall|k: int| 0 < k < idx2.len() implies idx2[k - 1] < #[trigger] idx2[k] by {
        if k < src_idx.len() {
            assert(idx2[k] == src_idx[k]);
            assert(idx2[k - 1] == src_idx[k - 1]);
        } else {
            assert(idx2[k - 1] == src_idx[k - 1]);
            assert(idx2[k] == i);
        }
    }
    assert forall|k: int| 0 <= k < idx2.len() implies #[trigger] r2[k]@.len()
        == input[idx2[k]]@.len() && input[idx2[k]]@.len() / 2 >= 15 by {
        if k < src_idx.len() {
            assert(idx2[k] == src_idx[k]);
            assert(r2[k] == r[k]);
            assert(r[k]@.len() == input[src_idx[k]]@.len());
        } else {
            assert(r2[k] == v);
            assert(idx2[k] == i);
        }
    }
    assert forall|k: int, l: int|
        0 <= k < idx2.len() && 0 <= l < input[idx2[k]]@.len() && pure_valid(
            views(input[idx2[k]]@)[l],
        ) implies #[trigger] views(r2[k]@)[l] == pure_coord(
        views(input[idx2[k]]@)[l],
        l % 2 == 0,
    ) by {
        if k < src_idx.len() {
            assert(idx2[k] == src_idx[k]);
            assert(r2[k] == r[k]);
            assert(views(r[k]@)[l] == pure_coord(views(input[src_idx[k]]@)[l], l % 2 == 0));
        } else {
            assert(r2[k] == v);
            assert(idx2[k] == i);
            assert(views(v@)[l] == pure_coord(views(input[i]@)[l], l % 2 == 0));
        }
    }
}

/// Validates a batch of token sequences: games shorter than fifteen full
/// moves are discarded, and each remaining game is kept only when every
/// token validates, converted to canonical coordinates.
#[verifier::rlimit(30)]
pub fn validate(move_sequences: Vec<Vec<String>>) -> (r: Vec<Vec<String>>)
    ensures
        r@.len() <= move_sequences@.len(),
        forall|k: int| 0 <= k < r@.len() ==> (#[trigger] r@[k]@.len()) >= 30,
        forall|k: int, l: int|
            0 <= k < r@.len() && 0 <= l < r@[k]@.len() ==> coord_ok((#[trigger] r@[k]@[l])@),
        exists|src_idx: Seq<int>|
            {
                &&& kept_from(r@, move_sequences@, src_idx)
                &&& forall|j: int|
                    0 <= j < move_sequences@.len() && (#[trigger] move_sequences@[j])@.len() / 2
                        >= 15 && all_pure(views(move_sequences@[j]@)) ==> maps_source(src_idx, j)
            },
{
    let mut r: Vec<Vec<String>> = Vec::new();
    let ghost mut src_idx: Seq<int> = Seq::empty();
    let mut i: usize = 0;
    while i < move_sequences.len()
        invariant
            i <= move_sequences@.len(),
            r@.len() <= i,
            forall|k: int| 0 <= k < r@.len() ==> (#[trigger] r@[k]@.len()) >= 30,
            forall|k: int, l: int|
                0 <= k < r@.len() && 0 <= l < r@[k]@.len() ==> coord_ok((#[trigger] r@[k]@[l])@),
            kept_from(r@, move_sequences@, src_idx),
            forall|k: int| 0 <= k < src_idx.len() ==> #[trigger] src_idx[k] < i,
            forall|j: int|
                0 <= j < i && (#[trigger] move_sequences@[j])@.len() / 2 >= 15 && all_pure(
                    views(move_sequences@[j]@),
                ) ==> maps_source(src_idx, j),
        decreases move_sequences@.len() - i,
    {
        let seq_len = move_sequences[i].len();
        if seq_len / 2 >= 15 {
            match validate_tokens(&move_sequences[i]) {
                Ok(v) => {
                    proof {
                        assert(forall|l: int|
                            0 <= l < v@.len() ==> coord_ok(#[trigger] views(v@)[l]));
                        assert(forall|l: int|
                            0 <= l < v@.len() ==> views(v@)[l] == #[trigger] v@[l]@);
                        lemma_kept_from_push(r@, move_sequences@, src_idx, v, i as int);
                        lemma_maps_source_push(src_idx, i as int);
                        src_idx = src_idx.push(i as int);
                    }
                    r.push(v);
                },
                Err(_) => {
                    proof {
                        assert(!all_pure(views(move_sequences@[i as int]@)));
                    }
                },
            }
        }
        i = i + 1;
    }
    r
}

} // verus!
