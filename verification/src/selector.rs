//! Blunder-based puzzle selection: the evaluation-gap measure, the random
//! scan window, and the query/reply state machine that drives an engine
//! session through the scan and the solution extension.

use vstd::prelude::*;

use crate::engine::Evaluation;
use crate::puzzle::Puzzle;
use crate::puzzle::PuzzleLevel;
use crate::text::views;

verus! {

/// The gap between the evaluation of the move played and of the engine's
/// best move; unbounded when the best line itself ends in check.
#[derive(Clone, Copy, Debug, PartialEq, Eq, Structural)]
pub enum Delta {
    Finite(i64),
    Infinite,
}

/// Absolute value.
pub open spec fn abs_i(x: int) -> int {
    if x >= 0 {
        x
    } else {
        -x
    }
}

/// The delta of two evaluations: the absolute difference when both are
/// numeric; the absolute best value when only the best is numeric; and
/// unbounded when the best evaluation is a check state.
pub open spec fn spec_delta(pos_eval: Evaluation, best_eval: Evaluation) -> Delta {
    match (pos_eval, best_eval) {
        (Evaluation::Score(a), Evaluation::Score(b)) => Delta::Finite(
            abs_i(a as int - b as int) as i64,
        ),
        (Evaluation::Check, Evaluation::Score(b)) => Delta::Finite(abs_i(b as int) as i64),
        (_, Evaluation::Check) => Delta::Infinite,
    }
}

/// Computes the evaluation gap between the played move and the best move.
pub fn compute_delta(pos_eval: &Evaluation, best_move_eval: &Evaluation) -> (d: Delta)
    ensures
        d == spec_delta(*pos_eval, *best_move_eval),
{
    match (pos_eval, best_move_eval) {
        (Evaluation::Score(a), Evaluation::Score(b)) => {
            let ai = *a as i64;
            let bi = *b as i64;
            if ai >= bi {
                Delta::Finite(ai - bi)
            } else {
                Delta::Finite(bi - ai)
            }
        },
        (Evaluation::Check, Evaluation::Score(b)) => {
            let bi = *b as i64;
            if bi >= 0 {
                Delta::Finite(bi)
            } else {
                Delta::Finite(0i64 - bi)
            }
        },
        (_, Evaluation::Check) => Delta::Infinite,
    }
}

/// Law: the delta of two numeric evaluations is unchanged when both flip
/// sign; and against a check state, the delta is the absolute value of
/// the numeric best evaluation.
pub proof fn lemma_delta_sign_symmetric(a: i32, b: i32)
    requires
        a != i32::MIN,
        b != i32::MIN,
    ensures
        spec_delta(Evaluation::Score((-a) as i32), Evaluation::Score((-b) as i32)) == spec_delta(
            Evaluation::Score(a),
            Evaluation::Score(b),
        ),
        spec_delta(Evaluation::Check, Evaluation::Score(b)) == Delta::Finite(abs_i(b as int) as i64),
{
}

/// `a` is at most `b` in the delta order; an unbounded delta dominates
/// every finite one.
pub open spec fn delta_le(a: Delta, b: Delta) -> bool {
    match (a, b) {
        (_, Delta::Infinite) => true,
        (Delta::Finite(x), Delta::Finite(y)) => x <= y,
        (Delta::Infinite, Delta::Finite(_)) => false,
    }
}

fn delta_gt(a: &Delta, b: &Delta) -> (r: bool)
    ensures
        r == !delta_le(*a, *b),
{
    match (a, b) {
        (_, Delta::Infinite) => false,
        (Delta::Finite(x), Delta::Finite(y)) => *x > *y,
        (Delta::Infinite, Delta::Finite(_)) => true,
    }
}

/// Relies on rand::random_range: a uniform draw from the half-open
/// range, which panics only when the range is empty.
#[verifier::external_body]
fn rand_in(lo: usize, hi: usize) -> (r: usize)
    requires
        lo < hi,
    ensures
        lo <= r < hi,
{
    rand::random_range(lo..hi)
}

/// Draws the scan window over a game: it starts a third of the way in,
/// skipping the opening, and ends at a random point before the last move.
pub fn rand_range_of_moves(moves: &Vec<String>) -> (r: (usize, usize))
    requires
        moves@.len() >= 4,
    ensures
        r.0 == moves@.len() / 3,
        1 <= r.0 < r.1 <= moves@.len() - 2,
{
    let len = moves.len();
    let from = len / 3;
    proof {
        assert(len == 3 * (len as int / 3) + len as int % 3);
        assert(0 <= len as int % 3 < 3);
    }
    let to = rand_in(from + 1, len - 1);
    (from, to)
}

/// A scanned position: the index of the move that reached it and the
/// evaluation gap measured there.
#[derive(Clone, Copy, Debug)]
pub struct Candidate {
    pub idx: usize,
    pub delta: Delta,
}

/// The side to move after move `idx` is the side to move after move
/// `to - 1`, the side whose blunder is hunted.
pub open spec fn side_matches(idx: int, to: int) -> bool {
    idx % 2 == (to - 1) % 2
}

fn side_matches_exec(idx: usize, to: usize) -> (r: bool)
    requires
        to >= 1,
    ensures
        r == side_matches(idx as int, to as int),
{
    idx % 2 == (to - 1) % 2
}

/// Picks, among the candidates whose side to move matches the hunted
/// side, the first with the greatest delta.
pub fn highest_delta_position_for_side(cands: &Vec<Candidate>, to: usize) -> (r: usize)
    requires
        to >= 1,
        exists|j: int|
            0 <= j < cands@.len() && side_matches(#[trigger] cands@[j].idx as int, to as int),
    ensures
        r < cands@.len(),
        side_matches(cands@[r as int].idx as int, to as int),
        forall|j: int|
            0 <= j < cands@.len() && side_matches(#[trigger] cands@[j].idx as int, to as int)
                ==> delta_le(cands@[j].delta, cands@[r as int].delta),
        forall|j: int|
            0 <= j < r && side_matches(#[trigger] cands@[j].idx as int, to as int) ==> !delta_le(
                cands@[r as int].delta,
                cands@[j].delta,
            ),
{
    let mut best: usize = 0;
    let mut found = false;
    let mut j: usize = 0;
    while j < cands.len()
        invariant
            j <= cands@.len(),
            to >= 1,
            found ==> best < j && side_matches(cands@[best as int].idx as int, to as int),
            found ==> forall|k: int|
                0 <= k < j && side_matches(#[trigger] cands@[k].idx as int, to as int)
                    ==> delta_le(cands@[k].delta, cands@[best as int].delta),
            found ==> forall|k: int|
                0 <= k < best && side_matches(#[trigger] cands@[k].idx as int, to as int)
                    ==> !delta_le(cands@[best as int].delta, cands@[k].delta),
            !found ==> forall|k: int|
                0 <= k < j ==> !side_matches(#[trigger] cands@[k].idx as int, to as int),
        decreases cands@.len() - j,
    {
        let c = &cands[j];
        if side_matches_exec(c.idx, to) {
            if !found {
                best = j;
                found = true;
            } else if delta_gt(&c.delta, &cands[best].delta) {
                best = j;
            }
        }
        j = j + 1;
    }
    proof {
        if !found {
            let w = choose|k: int|
                0 <= k < cands@.len() && side_matches(#[trigger] cands@[k].idx as int, to as int);
            assert(!side_matches(cands@[w].idx as int, to as int));
        }
    }
    best
}

/// Clones the first `n` moves of a list.
pub fn prefix_of(v: &Vec<String>, n: usize) -> (r: Vec<String>)
    requires
        n <= v@.len(),
    ensures
        views(r@) == views(v@).subrange(0, n as int),
{
    let mut r: Vec<String> = Vec::new();
    let mut i: usize = 0;
    proof {
        assert(views(r@) =~= views(v@).subrange(0, 0));
    }
    while i < n
        invariant
            i <= n <= v@.len(),
            views(r@) == views(v@).subrange(0, i as int),
        decreases n - i,
    {
        let m = v[i].clone();
        proof {
            assert(views(r@.push(m)) =~= views(r@) + seq![m@]);
            assert(views(v@).subrange(0, i + 1) =~= views(v@).subrange(0, i as int) + seq![
                views(v@)[i as int],
            ]);
        }
        r.push(m);
        i = i + 1;
    }
    r
}

/// A request the caller must put to the engine session before stepping
/// the selector again.
pub enum EngineQuery {
    /// Evaluate the position reached by the given moves from the start.
    Evaluate { moves: Vec<String> },
    /// Search the position reached by the given moves to the given depth
    /// and report the best move.
    BestMove { moves: Vec<String>, depth: u8 },
}

/// The engine's answer to the previous query.
pub enum EngineReply {
    Evaluation(Evaluation),
    BestMove(String),
}

/// One step of the selector: either the next engine query, or the
/// finished puzzle.
pub enum SelectStep {
    Query(EngineQuery),
    Done(Puzzle),
}

/// The evaluation carried by a reply, where it carries one.
pub open spec fn reply_eval(r: EngineReply) -> Evaluation {
    match r {
        EngineReply::Evaluation(e) => e,
        EngineReply::BestMove(_) => arbitrary(),
    }
}

/// The move carried by a reply, where it carries one.
pub open spec fn reply_move(r: EngineReply) -> Seq<char> {
    match r {
        EngineReply::BestMove(m) => m@,
        EngineReply::Evaluation(_) => arbitrary(),
    }
}

enum Phase {
    AwaitActual,
    AwaitBest,
    AwaitBestEval,
    Extend,
    Finished,
}

/// The puzzle-selection state machine. Constructed over a validated game
/// and a scan window, it emits engine queries one at a time; the caller
/// performs each against the engine session and hands the reply back to
/// `step` until a puzzle comes out.
///
/// Scan: for each move index in the window it measures the gap between
/// the evaluation after the move played and after the engine's best
/// move. Selection: among positions where the hunted side is to move, it
/// takes the first with the greatest gap. Extension: it appends twice
/// the level multiplier of engine moves at full depth as the solution.
pub struct Selector {
    lvl: PuzzleLevel,
    moves: Vec<String>,
    from: usize,
    to: usize,
    i: usize,
    phase: Phase,
    cur_eval: Option<Evaluation>,
    cands: Vec<Candidate>,
    chosen: usize,
    notation: Vec<String>,
    base_len: usize,
    appended: usize,
}

impl Selector {
    /// The requested difficulty.
    pub closed spec fn level(&self) -> PuzzleLevel {
        self.lvl
    }

    /// The validated game the selector scans.
    pub closed spec fn game(&self) -> Seq<Seq<char>> {
        views(self.moves@)
    }

    /// The scan window.
    pub closed spec fn window(&self) -> (int, int) {
        (self.from as int, self.to as int)
    }

    /// The move index currently under scan.
    pub closed spec fn scan_pos(&self) -> int {
        self.i as int
    }

    /// The evaluation of the move played, held while the best move and
    /// its evaluation are fetched.
    pub closed spec fn pending_evaluation(&self) -> Evaluation {
        match self.cur_eval {
            Some(e) => e,
            None => arbitrary(),
        }
    }

    /// The candidates recorded so far.
    pub closed spec fn candidates(&self) -> Seq<Candidate> {
        self.cands@
    }

    /// The moves of the puzzle built so far: the prefix through the
    /// blunder, then the solution appended.
    pub closed spec fn solution(&self) -> Seq<Seq<char>> {
        views(self.notation@)
    }

    /// The length of the kept game prefix; its last move is the blunder.
    pub closed spec fn chosen_len(&self) -> int {
        self.base_len as int
    }

    /// The index into the candidates of the chosen blunder.
    pub closed spec fn chosen_candidate(&self) -> int {
        self.chosen as int
    }

    /// How many solution half-moves have been appended.
    pub closed spec fn extension_count(&self) -> int {
        self.appended as int
    }

    pub closed spec fn in_scan_actual(&self) -> bool {
        self.phase is AwaitActual
    }

    pub closed spec fn in_scan_best(&self) -> bool {
        self.phase is AwaitBest
    }

    pub closed spec fn in_scan_best_eval(&self) -> bool {
        self.phase is AwaitBestEval
    }

    pub closed spec fn in_extend(&self) -> bool {
        self.phase is Extend
    }

    pub closed spec fn is_done(&self) -> bool {
        self.phase is Finished
    }

    /// The next reply must carry an evaluation; otherwise a best move.
    pub open spec fn expects_eval(&self) -> bool {
        self.in_scan_actual() || self.in_scan_best_eval()
    }

    /// Well-formedness of the selector state.
    pub closed spec fn inv(&self) -> bool {
        &&& 1 <= self.from < self.to
        &&& self.to + 2 <= self.moves@.len()
        &&& (self.in_scan_actual() || self.in_scan_best() || self.in_scan_best_eval()) ==> {
            &&& self.from <= self.i < self.to
            &&& self.cands@.len() == self.i - self.from
        }
        &&& (self.in_scan_best() || self.in_scan_best_eval()) ==> self.cur_eval is Some
        &&& forall|k: int|
            0 <= k < self.cands@.len() ==> (#[trigger] self.cands@[k].idx) == self.from + k
        &&& self.in_extend() ==> {
            &&& self.cands@.len() == self.to - self.from
            &&& self.chosen < self.cands@.len()
            &&& self.base_len == self.cands@[self.chosen as int].idx + 1
            &&& 2 <= self.base_len <= self.moves@.len() - 2
            &&& side_matches(self.base_len - 1, self.to as int)
            &&& forall|j: int|
                0 <= j < self.cands@.len() && side_matches(
                    #[trigger] self.cands@[j].idx as int,
                    self.to as int,
                ) ==> delta_le(self.cands@[j].delta, self.cands@[self.chosen as int].delta)
            &&& forall|j: int|
                0 <= j < self.chosen && side_matches(
                    #[trigger] self.cands@[j].idx as int,
                    self.to as int,
                ) ==> !delta_le(self.cands@[self.chosen as int].delta, self.cands@[j].delta)
            &&& self.appended < 2 * self.lvl.spec_number()
            &&& self.notation@.len() == self.base_len + self.appended
            &&& views(self.notation@).subrange(0, self.base_len as int) == views(
                self.moves@,
            ).subrange(0, self.base_len as int)
        }
    }

    /// Starts a selection over a validated game and a scan window; the
    /// first query evaluates the position after the window's first move.
    pub fn new(lvl: PuzzleLevel, moves: Vec<String>, from: usize, to: usize) -> (r: (
        Selector,
        EngineQuery,
    ))
        requires
            1 <= from < to,
            to + 2 <= moves@.len(),
        ensures
            r.0.inv(),
            !r.0.is_done(),
            r.0.in_scan_actual(),
            r.0.expects_eval(),
            r.0.level() == lvl,
            r.0.game() == views(moves@),
            r.0.window() == (from as int, to as int),
            r.0.scan_pos() == from,
            r.0.candidates() == Seq::<Candidate>::empty(),
            (r.1 matches EngineQuery::Evaluate { moves: m } && views(m@) == views(moves@).subrange(
                0,
                from + 1,
            )),
    {
        let q = prefix_of(&moves, from + 1);
        let s = Selector {
            lvl,
            moves,
            from,
            to,
            i: from,
            phase: Phase::AwaitActual,
            cur_eval: None,
            cands: Vec::new(),
            chosen: 0,
            notation: Vec::new(),
            base_len: 0,
            appended: 0,
        };
        (s, EngineQuery::Evaluate { moves: q })
    }

    /// Feeds the engine's reply to the selector and yields the next
    /// query, or the finished puzzle.
    ///
    /// When the puzzle comes out, its moves are the game prefix through
    /// the chosen blunder followed by exactly twice the level multiplier
    /// of engine moves; its start position is the move just before the
    /// blunder; and the blunder's side to move matches the hunted side.
    pub fn step(&mut self, reply: EngineReply) -> (r: SelectStep)
        requires
            old(self).inv(),
            !old(self).is_done(),
            (reply matches EngineReply::Evaluation(_)) == old(self).expects_eval(),
        ensures
            final(self).inv(),
            final(self).level() == old(self).level(),
            final(self).game() == old(self).game(),
            final(self).window() == old(self).window(),
            final(self).is_done() <==> (r matches SelectStep::Done(_)),
            old(self).in_scan_actual() ==> {
                &&& final(self).in_scan_best()
                &&& !final(self).expects_eval()
                &&& final(self).scan_pos() == old(self).scan_pos()
                &&& final(self).candidates() == old(self).candidates()
                &&& final(self).pending_evaluation() == reply_eval(reply)
                &&& (r matches SelectStep::Query(q) && q matches EngineQuery::BestMove {
                    moves: m,
                    depth,
                } && views(m@) == old(self).game().subrange(0, old(self).scan_pos() + 1) && depth
                    == 1)
            },
            old(self).in_scan_best() ==> {
                &&& final(self).in_scan_best_eval()
                &&& final(self).expects_eval()
                &&& final(self).scan_pos() == old(self).scan_pos()
                &&& final(self).candidates() == old(self).candidates()
                &&& final(self).pending_evaluation() == old(self).pending_evaluation()
                &&& (r matches SelectStep::Query(q) && q matches EngineQuery::Evaluate { moves: m }
                    && views(m@) == old(self).game().subrange(0, old(self).scan_pos() + 1).push(
                    reply_move(reply),
                ))
            },
            old(self).in_scan_best_eval() ==> {
                &&& final(self).candidates() == old(self).candidates().push(
                    Candidate {
                        idx: old(self).scan_pos() as usize,
                        delta: spec_delta(old(self).pending_evaluation(), reply_eval(reply)),
                    },
                )
                &&& (old(self).scan_pos() + 1 < old(self).window().1 ==> {
                    &&& final(self).in_scan_actual()
                    &&& final(self).expects_eval()
                    &&& final(self).scan_pos() == old(self).scan_pos() + 1
                    &&& (r matches SelectStep::Query(q) && q matches EngineQuery::Evaluate {
                        moves: m,
                    } && views(m@) == old(self).game().subrange(0, old(self).scan_pos() + 2))
                })
                &&& (old(self).scan_pos() + 1 == old(self).window().1 ==> {
                    &&& final(self).in_extend()
                    &&& !final(self).expects_eval()
                    &&& final(self).extension_count() == 0
                    &&& 0 <= final(self).chosen_candidate() < final(self).candidates().len()
                    &&& final(self).candidates()[final(self).chosen_candidate()].idx + 1
                        == final(self).chosen_len()
                    &&& 2 <= final(self).chosen_len() <= old(self).game().len() - 2
                    &&& side_matches(final(self).chosen_len() - 1, old(self).window().1)
                    &&& final(self).solution() == old(self).game().subrange(
                        0,
                        final(self).chosen_len(),
                    )
                    &&& (r matches SelectStep::Query(q) && q matches EngineQuery::BestMove {
                        moves: m,
                        depth,
                    } && views(m@) == final(self).solution() && depth == 5)
                })
            },
            old(self).in_extend() ==> {
                &&& final(self).solution() == old(self).solution().push(reply_move(reply))
                &&& final(self).chosen_len() == old(self).chosen_len()
                &&& final(self).candidates() == old(self).candidates()
                &&& (old(self).extension_count() + 1 < 2 * old(self).level().spec_number() ==> {
                    &&& final(self).in_extend()
                    &&& !final(self).expects_eval()
                    &&& final(self).extension_count() == old(self).extension_count() + 1
                    &&& (r matches SelectStep::Query(q) && q matches EngineQuery::BestMove {
                        moves: m,
                        depth,
                    } && views(m@) == final(self).solution() && depth == 5)
                })
                &&& (old(self).extension_count() + 1 == 2 * old(self).level().spec_number() ==> {
                    &&& final(self).is_done()
                    &&& (r matches SelectStep::Done(p) && {
                        &&& p.lvl == old(self).level()
                        &&& views(p.notation@) == final(self).solution()
                        &&& views(p.notation@).len() == final(self).chosen_len() + 2 * old(
                            self,
                        ).level().spec_number()
                        &&& views(p.notation@).subrange(0, final(self).chosen_len()) == old(
                            self,
                        ).game().subrange(0, final(self).chosen_len())
                        &&& p.start_pos@ == old(self).game()[final(self).chosen_len() - 2]
                        &&& 2 <= final(self).chosen_len() <= old(self).game().len() - 2
                        &&& side_matches(final(self).chosen_len() - 1, old(self).window().1)
                        &&& 0 <= final(self).chosen_candidate() < final(self).candidates().len()
                        &&& forall|j: int|
                            0 <= j < final(self).candidates().len() && side_matches(
                                #[trigger] final(self).candidates()[j].idx as int,
                                old(self).window().1,
                            ) ==> delta_le(
                                final(self).candidates()[j].delta,
                                final(self).candidates()[final(self).chosen_candidate()].delta,
                            )
                        &&& final(self).candidates()[final(self).chosen_candidate()].idx + 1
                            == final(self).chosen_len()
                    })
                })
            },
    {
        match self.phase {
            Phase::AwaitActual => {
                let e = match reply {
                    EngineReply::Evaluation(e) => e,
                    EngineReply::BestMove(_) => unreached(),
                };
                self.cur_eval = Some(e);
                self.phase = Phase::AwaitBest;
                let m = prefix_of(&self.moves, self.i + 1);
                SelectStep::Query(EngineQuery::BestMove { moves: m, depth: 1 })
            },
            Phase::AwaitBest => {
                let mv = match reply {
                    EngineReply::BestMove(m) => m,
                    EngineReply::Evaluation(_) => unreached(),
                };
                self.phase = Phase::AwaitBestEval;
                let mut m = prefix_of(&self.moves, self.i + 1);
                proof {
                    assert(views(m@.push(mv)) =~= views(m@).push(mv@));
                }
                m.push(mv);
                SelectStep::Query(EngineQuery::Evaluate { moves: m })
            },
            Phase::AwaitBestEval => {
                let be = match reply {
                    EngineReply::Evaluation(e) => e,
                    EngineReply::BestMove(_) => unreached(),
                };
                let pe = match &self.cur_eval {
                    Some(e) => *e,
                    None => unreached(),
                };
                let d = compute_delta(&pe, &be);
                self.cands.push(Candidate { idx: self.i, delta: d });
                self.cur_eval = None;
                if self.i + 1 < self.to {
                    self.i = self.i + 1;
                    self.phase = Phase::AwaitActual;
                    let m = prefix_of(&self.moves, self.i + 1);
                    SelectStep::Query(EngineQuery::Evaluate { moves: m })
                } else {
                    proof {
                        let last = self.cands@.len() - 1;
                        assert(self.cands@[last].idx == self.to - 1);
                        assert(side_matches(self.cands@[last].idx as int, self.to as int));
                    }
                    let chosen = highest_delta_position_for_side(&self.cands, self.to);
                    self.chosen = chosen;
                    self.base_len = self.cands[chosen].idx + 1;
                    self.notation = prefix_of(&self.moves, self.base_len);
                    self.appended = 0;
                    self.phase = Phase::Extend;
                    proof {
                        assert(views(self.notation@).subrange(0, self.base_len as int) =~= views(
                            self.notation@,
                        ));
                    }
                    let m = prefix_of(&self.notation, self.notation.len());
                    proof {
                        assert(views(self.notation@).subrange(
                            0,
                            self.notation@.len() as int,
                        ) =~= views(self.notation@));
                    }
                    SelectStep::Query(EngineQuery::BestMove { moves: m, depth: 5 })
                }
            },
            Phase::Extend => {
                let mv = match reply {
                    EngineReply::BestMove(m) => m,
                    EngineReply::Evaluation(_) => unreached(),
                };
                proof {
                    assert(views(self.notation@.push(mv)) =~= views(self.notation@).push(mv@));
                    assert(views(self.notation@.push(mv)).subrange(0, self.base_len as int) =~= views(
                        self.notation@,
                    ).subrange(0, self.base_len as int));
                }
                self.notation.push(mv);
                self.appended = self.appended + 1;
                let needed = 2 * (self.lvl.as_number() as usize);
                if self.appended < needed {
                    let m = prefix_of(&self.notation, self.notation.len());
                    proof {
                        assert(views(self.notation@).subrange(
                            0,
                            self.notation@.len() as int,
                        ) =~= views(self.notation@));
                    }
                    SelectStep::Query(EngineQuery::BestMove { moves: m, depth: 5 })
                } else {
                    self.phase = Phase::Finished;
                    let start_pos = self.notation[self.base_len - 2].clone();
                    let notation = prefix_of(&self.notation, self.notation.len());
                    proof {
                        assert(views(self.notation@).subrange(
                            0,
                            self.notation@.len() as int,
                        ) =~= views(self.notation@));
                        assert(views(self.notation@)[self.base_len - 2] == views(
                            self.moves@,
                        ).subrange(0, self.base_len as int)[self.base_len - 2]);
                    }
                    SelectStep::Done(
                        Puzzle { lvl: self.lvl, start_pos, notation },
                    )
                }
            },
            Phase::Finished => unreached(),
        }
    }
}

} // verus!
