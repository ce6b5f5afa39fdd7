//! The line-oriented engine protocol: command rendering, sentinel
//! detection, and parsing of best-move and evaluation output.
//!
//! All process I/O lives outside the library; these functions decide what
//! is written and how each line read back is interpreted.

use vstd::prelude::*;

use crate::text::all_digits;
use crate::text::contains_sub;
use crate::text::contains_at;
use crate::text::dec_digits;
use crate::text::dot_idx;
use crate::text::lemma_dot_idx_value;
use crate::text::dec_value;
use crate::text::digit_val;
use crate::text::is_digit;
use crate::text::is_digit_char;
use crate::text::split_ws;
use crate::text::str_contains;
use crate::text::str_eq;
use crate::text::tokenize;
use crate::text::trim;
use crate::text::trimmed;
use crate::text::usize_to_string;
use crate::text::views;

verus! {

/// The evaluation of a position: either the side to move is in check, or
/// a score in centipawns, positive favouring White.
#[derive(Clone, Copy, Debug, PartialEq, Eq, Structural)]
pub enum Evaluation {
    Check,
    Score(i32),
}

/// A failure of the engine subprocess or its protocol. Fatal to the
/// current request; never retried inside the library.
#[derive(Debug)]
pub enum EngineError {
    /// The engine process could not be started.
    SpawnFailure,
    /// A write to the engine failed.
    BrokenPipe,
    /// The stream ended before the expected sentinel line.
    UnexpectedEof,
    /// A sentinel line arrived without the expected field.
    MalformedOutput(String),
}

impl EngineError {
    pub fn message(&self) -> (r: String)
        ensures
            r@.len() > 0,
    {
        proof {
            reveal_strlit("could not start engine process");
            reveal_strlit("could not write to engine");
            reveal_strlit("engine stream ended before the expected output");
            reveal_strlit("unexpected engine output: ");
        }
        match self {
            EngineError::SpawnFailure => String::from_str("could not start engine process"),
            EngineError::BrokenPipe => String::from_str("could not write to engine"),
            EngineError::UnexpectedEof => String::from_str(
                "engine stream ended before the expected output",
            ),
            EngineError::MalformedOutput(line) => {
                let mut r = String::from_str("unexpected engine output: ");
                r.append(line.as_str());
                r
            },
        }
    }
}

/// Each move of `ms` prefixed by one space, concatenated.
pub open spec fn prefix_spaced(ms: Seq<Seq<char>>) -> Seq<char>
    decreases ms.len(),
{
    if ms.len() == 0 {
        Seq::<char>::empty()
    } else {
        prefix_spaced(ms.drop_last()) + " "@ + ms.last()
    }
}

/// The position-setup command for a game continuation from the start
/// position.
pub open spec fn position_cmd_spec(ms: Seq<Seq<char>>) -> Seq<char> {
    "position startpos moves"@ + prefix_spaced(ms)
}

/// Renders `position startpos moves m1 m2 ...` for the given move list.
pub fn position_cmd(moves: &Vec<String>) -> (r: String)
    ensures
        r@ == position_cmd_spec(views(moves@)),
{
    let mut r = String::from_str("position startpos moves");
    let mut i: usize = 0;
    proof {
        assert(views(moves@).subrange(0, 0) =~= Seq::<Seq<char>>::empty());
        assert(r@ =~= "position startpos moves"@ + prefix_spaced(views(moves@).subrange(0, 0)));
    }
    while i < moves.len()
        invariant
            i <= moves.len(),
            r@ == "position startpos moves"@ + prefix_spaced(views(moves@).subrange(0, i as int)),
        decreases moves.len() - i,
    {
        r.append(" ");
        r.append(moves[i].as_str());
        proof {
            let vs = views(moves@);
            let p = vs.subrange(0, i + 1);
            assert(p.drop_last() =~= vs.subrange(0, i as int));
            assert(p.last() == moves@[i as int]@);
        }
        i = i + 1;
    }
    proof {
        assert(views(moves@).subrange(0, moves@.len() as int) =~= views(moves@));
    }
    r
}

/// The depth-bounded search command.
pub open spec fn go_cmd_spec(depth: u8) -> Seq<char> {
    "go depth "@ + dec_digits(depth as nat)
}

/// Renders `go depth N`.
pub fn go_depth_cmd(depth: u8) -> (r: String)
    ensures
        r@ == go_cmd_spec(depth),
{
    let mut r = String::from_str("go depth ");
    let d = usize_to_string(depth as usize);
    r.append(d.as_str());
    r
}

/// The command that discards prior search state.
pub fn new_game_cmd() -> (r: &'static str)
    ensures
        r@ == "ucinewgame"@,
{
    "ucinewgame"
}

/// The readiness probe sent after a new game.
pub fn ready_cmd() -> (r: &'static str)
    ensures
        r@ == "isready"@,
{
    "isready"
}

/// The sentinel confirming readiness.
pub fn ready_marker() -> (r: &'static str)
    ensures
        r@ == "readyok"@,
{
    "readyok"
}

/// The static evaluation command.
pub fn eval_cmd() -> (r: &'static str)
    ensures
        r@ == "eval"@,
{
    "eval"
}

/// The sentinel line of an evaluation response.
pub fn eval_marker() -> (r: &'static str)
    ensures
        r@ == "Final"@,
{
    "Final"
}

/// The sentinel line of a search response.
pub fn best_move_marker() -> (r: &'static str)
    ensures
        r@ == "bestmove"@,
{
    "bestmove"
}

/// The termination command sent on teardown.
pub fn quit_cmd() -> (r: &'static str)
    ensures
        r@ == "quit"@,
{
    "quit"
}

/// A line terminates the read loop when, after trimming, it is non-empty
/// and holds the sentinel.
pub open spec fn stops_read(line: Seq<char>, marker: Seq<char>) -> bool {
    trimmed(line).len() > 0 && contains_sub(trimmed(line), marker)
}

/// Decides whether a line read from the engine ends the wait for
/// `marker`; blank lines and unrelated chatter are skipped.
pub fn line_terminates(line: &str, marker: &str) -> (r: bool)
    ensures
        r == stops_read(line@, marker@),
{
    let t = trim(line);
    if t.unicode_len() == 0 {
        return false;
    }
    if str_eq(t, marker) {
        proof {
            assert(t@.subrange(0, t@.len() as int) =~= t@);
            assert(contains_at(t@, marker@, 0));
        }
        return true;
    }
    str_contains(t, marker)
}

/// Extracts the move of a `bestmove` line: its second whitespace field.
pub fn parse_best_move_line(line: &str) -> (r: Result<String, EngineError>)
    ensures
        r is Ok <==> split_ws(line@).len() >= 2,
        r matches Ok(v) ==> v@ == split_ws(line@)[1],
        r matches Err(e) ==> e matches EngineError::MalformedOutput(_),
{
    let fields = tokenize(line);
    if fields.len() >= 2 {
        proof {
            assert(views(fields@)[1] == fields@[1]@);
        }
        Ok(fields[1].clone())
    } else {
        Err(EngineError::MalformedOutput(String::from_str(line)))
    }
}

/// Ten to the `n`.
pub open spec fn pow10(n: nat) -> nat
    decreases n,
{
    if n == 0 {
        1
    } else {
        10 * pow10((n - 1) as nat)
    }
}

proof fn lemma_pow10_mono(a: nat, b: nat)
    requires
        a <= b,
    ensures
        1 <= pow10(a) <= pow10(b),
    decreases b - a,
{
    if a == b {
        lemma_pow10_pos(a);
    } else {
        lemma_pow10_mono(a, (b - 1) as nat);
    }
}

proof fn lemma_pow10_pos(a: nat)
    ensures
        pow10(a) >= 1,
    decreases a,
{
    if a > 0 {
        lemma_pow10_pos((a - 1) as nat);
    }
}

proof fn lemma_dec_value_bound(s: Seq<char>)
    ensures
        dec_value(s) < pow10(s.len()),
    decreases s.len(),
{
    if s.len() > 0 {
        lemma_dec_value_bound(s.drop_last());
        assert(digit_val(s.last()) <= 9);
    }
}

/// The digit body of a score: one to seven integer digits, optionally a
/// dot followed by one or two fraction digits.
pub open spec fn score_body_ok(t: Seq<char>) -> bool {
    let k = dot_idx(t);
    &&& 1 <= k <= 7
    &&& all_digits(t.subrange(0, k))
    &&& (k == t.len() || (k + 2 <= t.len() <= k + 3 && all_digits(
        t.subrange(k + 1, t.len() as int),
    )))
}

/// The centipawn value of a score body: the integer part in hundredths
/// plus the fraction digits, the second taken as zero when absent.
pub open spec fn score_body_cp(t: Seq<char>) -> int {
    let k = dot_idx(t);
    let ip = dec_value(t.subrange(0, k));
    let fr: int = if k == t.len() {
        0int
    } else if t.len() == k + 2 {
        (digit_val(t[k + 1]) * 10) as int
    } else {
        (digit_val(t[k + 1]) * 10 + digit_val(t[k + 2])) as int
    };
    ip * 100 + fr
}

/// A decimal score token, optionally signed.
pub open spec fn is_score_token(t: Seq<char>) -> bool {
    t.len() > 0 && (if t[0] == '-' || t[0] == '+' {
        score_body_ok(t.drop_first())
    } else {
        score_body_ok(t)
    })
}

/// The centipawn value of a score token.
pub open spec fn score_cp(t: Seq<char>) -> int {
    if t.len() > 0 && t[0] == '-' {
        -score_body_cp(t.drop_first())
    } else if t.len() > 0 && t[0] == '+' {
        score_body_cp(t.drop_first())
    } else {
        score_body_cp(t)
    }
}

fn not_dot_at(s: &str, j: usize) -> (r: bool)
    requires
        j < s@.len(),
    ensures
        r == (s@[j as int] != '.'),
{
    s.get_char(j) != '.'
}

/// Parses a decimal score token into centipawns, rejecting anything the
/// shape above does not allow.
fn parse_score(t: &str) -> (r: Result<i32, ()>)
    ensures
        r is Ok <==> is_score_token(t@),
        r matches Ok(v) ==> v == score_cp(t@) && -1000000001 <= v <= 1000000001,
{
    let n = t.unicode_len();
    if n == 0 {
        return Err(());
    }
    let c0 = t.get_char(0);
    let neg = c0 == '-';
    let has_sign = neg || c0 == '+';
    let start: usize = if has_sign {
        1
    } else {
        0
    };
    let ghost body = t@.subrange(start as int, n as int);
    proof {
        if has_sign {
            assert(body =~= t@.drop_first());
        } else {
            assert(body =~= t@);
        }
    }
    let mut k = start;
    while k < n && not_dot_at(t, k)
        invariant
            start <= k <= n,
            n == t@.len(),
            forall|j: int| start <= j < k ==> t@[j] != '.',
        decreases n - k,
    {
        k = k + 1;
    }
    proof {
        assert(forall|j: int| 0 <= j < k - start ==> body[j] == t@[start + j]);
        if k < n {
            assert(body[k - start] == t@[k as int]);
        }
        lemma_dot_idx_value(body, k - start);
    }
    if k == start || k - start > 7 {
        return Err(());
    }
    let mut acc: u32 = 0;
    let mut i = start;
    proof {
        assert(body.subrange(0, 0) =~= Seq::<char>::empty());
    }
    while i < k
        invariant
            start <= i <= k <= n,
            start + 1 <= k,
            k - start <= 7,
            n == t@.len(),
            body == t@.subrange(start as int, n as int),
            body == (if t@.len() > 0 && (t@[0] == '-' || t@[0] == '+') {
                t@.drop_first()
            } else {
                t@
            }),
            n > 0,
            dot_idx(body) == k - start,
            all_digits(body.subrange(0, i - start)),
            acc == dec_value(body.subrange(0, i - start)),
        decreases k - i,
    {
        let c = t.get_char(i);
        if !is_digit(c) {
            proof {
                assert(body[i - start] == t@[i as int]);
                assert(body.subrange(0, dot_idx(body))[i - start] == body[i - start]);
                assert(!all_digits(body.subrange(0, dot_idx(body))));
            }
            return Err(());
        }
        let dv: u32 = digit_value_u32(c);
        proof {
            let p = body.subrange(0, i - start + 1);
            assert(p.drop_last() =~= body.subrange(0, i - start));
            assert(p.last() == body[i - start]);
            assert(body[i - start] == t@[i as int]);
            lemma_dec_value_bound(body.subrange(0, i - start));
            lemma_pow10_mono((i - start) as nat, 6);
            assert(pow10(0) == 1);
            assert(pow10(1) == 10);
            assert(pow10(2) == 100);
            assert(pow10(3) == 1000);
            assert(pow10(4) == 10000);
            assert(pow10(5) == 100000);
            assert(pow10(6) == 1000000);
            assert(acc <= 999999);
        }
        acc = acc * 10 + dv;
        i = i + 1;
    }
    proof {
        assert(body.subrange(0, k - start) =~= body.subrange(0, dot_idx(body)));
        lemma_dec_value_bound(body.subrange(0, k - start));
        lemma_pow10_mono((k - start) as nat, 7);
        assert(pow10(0) == 1);
        assert(pow10(1) == 10);
        assert(pow10(2) == 100);
        assert(pow10(3) == 1000);
        assert(pow10(4) == 10000);
        assert(pow10(5) == 100000);
        assert(pow10(6) == 1000000);
        assert(pow10(7) == 10000000);
        assert(acc <= 9999999);
    }
    let fr: u32;
    if k == n {
        fr = 0;
    } else {
        let flen = n - (k + 1);
        if flen < 1 || flen > 2 {
            return Err(());
        }
        let c1 = t.get_char(k + 1);
        if !is_digit(c1) {
            proof {
                let ft = body.subrange(k - start + 1, body.len() as int);
                assert(ft[0] == body[k - start + 1]);
                assert(body[k - start + 1] == t@[k + 1]);
                assert(!all_digits(ft));
            }
            return Err(());
        }
        if flen == 2 {
            let c2 = t.get_char(k + 2);
            if !is_digit(c2) {
                proof {
                    let ft = body.subrange(k - start + 1, body.len() as int);
                    assert(ft[1] == body[k - start + 2]);
                    assert(body[k - start + 2] == t@[k + 2]);
                    assert(!all_digits(ft));
                }
                return Err(());
            }
            fr = digit_value_u32(c1) * 10 + digit_value_u32(c2);
        } else {
            fr = digit_value_u32(c1) * 10;
        }
        proof {
            let ft = body.subrange(k - start + 1, body.len() as int);
            assert forall|j: int| 0 <= j < ft.len() implies is_digit_char(ft[j]) by {
                assert(ft[j] == body[k - start + 1 + j]);
                assert(body[k - start + 1 + j] == t@[k + 1 + j]);
            }
            assert(all_digits(ft));
        }
    }
    let cp: u32 = acc * 100 + fr;
    proof {
        if k < n {
            assert(body[k - start + 1] == t@[k + 1]);
            if k + 2 < n {
                assert(body[k - start + 2] == t@[k + 2]);
            }
        }
        assert(score_body_ok(body));
        assert(score_body_cp(body) == cp);
    }
    if neg {
        Ok(0i32 - (cp as i32))
    } else {
        Ok(cp as i32)
    }
}

fn digit_value_u32(c: char) -> (r: u32)
    requires
        is_digit_char(c),
    ensures
        r == digit_val(c),
        r < 10,
{
    if c == '1' {
        1
    } else if c == '2' {
        2
    } else if c == '3' {
        3
    } else if c == '4' {
        4
    } else if c == '5' {
        5
    } else if c == '6' {
        6
    } else if c == '7' {
        7
    } else if c == '8' {
        8
    } else if c == '9' {
        9
    } else {
        0
    }
}

/// Interprets a `Final` evaluation line: a check marker yields `Check`;
/// otherwise the third whitespace field must parse as a decimal score.
pub fn parse_eval_line(line: &str) -> (r: Result<Evaluation, EngineError>)
    ensures
        contains_sub(line@, "in check"@) ==> (r matches Ok(v) && v == Evaluation::Check),
        !contains_sub(line@, "in check"@) ==> ((r is Ok <==> (split_ws(line@).len() >= 3
            && is_score_token(split_ws(line@)[2]))) && (r matches Ok(v) ==> v
            == Evaluation::Score(score_cp(split_ws(line@)[2]) as i32))),
        r matches Err(e) ==> e matches EngineError::MalformedOutput(_),
    {
    if str_contains(line, "in check") {
        return Ok(Evaluation::Check);
    }
    let fields = tokenize(line);
    if fields.len() < 3 {
        return Err(EngineError::MalformedOutput(String::from_str(line)));
    }
    proof {
        assert(views(fields@)[2] == fields@[2]@);
    }
    match parse_score(fields[2].as_str()) {
        Ok(v) => Ok(Evaluation::Score(v)),
        Err(_) => Err(EngineError::MalformedOutput(String::from_str(line))),
    }
}

} // verus!
