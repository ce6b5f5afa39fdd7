//! Shape validation of move tokens: castling shorthand, decoration
//! stripping, and positional checks of coordinate notation.

use vstd::prelude::*;

use crate::text::str_eq;
use crate::text::views;

verus! {

/// An aggregated notation failure; the message lists every failing token
/// together with its 1-based move number.
#[derive(Debug)]
pub struct InvalidNotationError(pub String);

impl InvalidNotationError {
    pub fn message(&self) -> (r: &str)
        ensures
            r@ == self.0@,
    {
        self.0.as_str()
    }
}

/// A raw move token labelled with the side that plays it.
#[derive(Debug, Clone)]
pub enum Side {
    White(String),
    Black(String),
}

/// The token carried by a side-labelled move.
pub open spec fn side_token(s: &Side) -> Seq<char> {
    match s {
        Side::White(t) => t@,
        Side::Black(t) => t@,
    }
}

/// Whether the side-labelled move belongs to White.
pub open spec fn side_is_white(s: &Side) -> bool {
    match s {
        Side::White(_) => true,
        Side::Black(_) => false,
    }
}

impl Side {
    pub fn mov_ref(&self) -> (r: &str)
        ensures
            r@ == side_token(self),
    {
        match self {
            Side::White(mov) => mov.as_str(),
            Side::Black(mov) => mov.as_str(),
        }
    }
}

/// A validated sequence of canonical coordinate moves, alternating sides
/// starting with White.
#[derive(Debug, Clone)]
pub struct Pgn(pub Vec<String>);

impl View for Pgn {
    type V = Seq<Seq<char>>;

    open spec fn view(&self) -> Seq<Seq<char>> {
        views(self.0@)
    }
}

/// A file letter `a`..`h`.
pub open spec fn is_file_char(c: char) -> bool {
    'a' <= c && c <= 'h'
}

/// A rank digit `1`..`9`; one beyond the board is tolerated defensively.
pub open spec fn is_rank_char(c: char) -> bool {
    '1' <= c && c <= '9'
}

/// A promotion letter, either case.
pub open spec fn is_promo_char(c: char) -> bool {
    c == 'q' || c == 'r' || c == 'b' || c == 'n' || c == 'Q' || c == 'R' || c == 'B' || c == 'N'
}

/// A decoration character stripped before positional validation.
pub open spec fn is_decoration_char(c: char) -> bool {
    c == 'x' || c == '+' || c == '#' || c == '=' || c == '-'
}

/// An ASCII capital, taken as a leading piece letter.
pub open spec fn is_upper_char(c: char) -> bool {
    'A' <= c && c <= 'Z'
}

/// `s` with every decoration character removed.
pub open spec fn strip_decorations(s: Seq<char>) -> Seq<char>
    decreases s.len(),
{
    if s.len() == 0 {
        Seq::<char>::empty()
    } else if is_decoration_char(s.last()) {
        strip_decorations(s.drop_last())
    } else {
        strip_decorations(s.drop_last()) + seq![s.last()]
    }
}

/// The sanitized form of a token: an optional leading capital dropped,
/// then all decoration characters removed.
pub open spec fn sanitize_spec(s: Seq<char>) -> Seq<char> {
    if s.len() > 0 && is_upper_char(s[0]) {
        strip_decorations(s.drop_first())
    } else {
        strip_decorations(s)
    }
}

/// A canonical coordinate move: origin square, destination square, and an
/// optional promotion letter.
pub open spec fn coord_ok(s: Seq<char>) -> bool {
    (s.len() == 4 || s.len() == 5) && is_file_char(s[0]) && is_rank_char(s[1]) && is_file_char(
        s[2],
    ) && is_rank_char(s[3]) && (s.len() == 5 ==> is_promo_char(s[4]))
}

impl Pgn {
    pub fn moves(&self) -> (r: &Vec<String>)
        ensures
            r@ == self.0@,
    {
        &self.0
    }

    pub fn is_valid_file(c: char) -> (r: bool)
        ensures
            r == is_file_char(c),
    {
        'a' <= c && c <= 'h'
    }

    pub fn is_valid_rank(c: char) -> (r: bool)
        ensures
            r == is_rank_char(c),
    {
        '1' <= c && c <= '9'
    }

    /// Drops a leading capital and every decoration character.
    pub fn sanitize_move(mov: &str) -> (r: String)
        ensures
            r@ == sanitize_spec(mov@),
    {
        let n = mov.unicode_len();
        let start: usize = if n > 0 && is_upper(mov.get_char(0)) {
            1
        } else {
            0
        };
        let mut out = String::new();
        let mut i = start;
        proof {
            assert(mov@.subrange(start as int, start as int) =~= Seq::<char>::empty());
            assert(strip_decorations(Seq::<char>::empty()) =~= Seq::<char>::empty());
        }
        while i < n
            invariant
                start <= i <= n,
                start == 0 || start == 1,
                n == mov@.len(),
                start == 1 ==> n > 0 && is_upper_char(mov@[0]),
                start == 0 ==> n == 0 || !is_upper_char(mov@[0]),
                out@ == strip_decorations(mov@.subrange(start as int, i as int)),
            decreases n - i,
        {
            let c = mov.get_char(i);
            proof {
                let p = mov@.subrange(start as int, i + 1);
                assert(p.drop_last() =~= mov@.subrange(start as int, i as int));
                assert(p.last() == mov@[i as int]);
            }
            if !is_decoration(c) {
                let piece = mov.substring_char(i, i + 1);
                proof {
                    assert(piece@ =~= seq![mov@[i as int]]);
                }
                out.append(piece);
            }
            i = i + 1;
        }
        proof {
            if start == 1 {
                assert(mov@.drop_first() =~= mov@.subrange(1, n as int));
            } else {
                assert(mov@ =~= mov@.subrange(0, n as int));
            }
        }
        out
    }

    /// Positional validation of a sanitized token: accepts exactly the
    /// canonical coordinate moves, and otherwise reports every failing
    /// character position in one message.
    pub fn validate_sanitized_move(mov: &str) -> (r: Result<(), String>)
        ensures
            r is Ok <==> coord_ok(mov@),
            mov@.len() < 4 || mov@.len() > 5 ==> (r matches Err(e) && e@ == len_err_msg(mov@)),
            (mov@.len() == 4 || mov@.len() == 5) && !coord_ok(mov@) ==> (r matches Err(e) && e@
                == char_errs_msg(mov@)),
            r matches Err(e) ==> e@.len() > 0,
    {
        let n = mov.unicode_len();
        if n < 4 || n > 5 {
            let mut e = String::from_str("expected ");
            e.append(mov);
            e.append(" to have length of 4 or 5");
            proof {
                reveal_strlit("expected ");
                assert(e@.len() > 0);
            }
            return Err(e);
        }
        let mut errors = String::new();
        let mut any = false;
        let c0 = mov.get_char(0);
        if !Self::is_valid_file(c0) {
            push_char_err(
                &mut errors,
                &mut any,
                "first and third char must be any character between a-h, but got ",
                mov,
                0,
            );
        }
        let c1 = mov.get_char(1);
        if !Self::is_valid_rank(c1) {
            push_char_err(
                &mut errors,
                &mut any,
                "second and fourth char must be any digit between 1-9, but got ",
                mov,
                1,
            );
        }
        let c2 = mov.get_char(2);
        if !Self::is_valid_file(c2) {
            push_char_err(
                &mut errors,
                &mut any,
                "first and third char must be any character between a-h, but got ",
                mov,
                2,
            );
        }
        let c3 = mov.get_char(3);
        if !Self::is_valid_rank(c3) {
            push_char_err(
                &mut errors,
                &mut any,
                "second and fourth char must be any digit between 1-9, but got ",
                mov,
                3,
            );
        }
        if n == 5 {
            let c4 = mov.get_char(4);
            if !is_promo(c4) {
                push_char_err(
                    &mut errors,
                    &mut any,
                    "fifth char must be one of q/r/b/n, but got ",
                    mov,
                    4,
                );
            }
        }
        if any {
            Err(errors)
        } else {
            Ok(())
        }
    }

    /// Sanitizes a token and validates the result, returning the canonical
    /// coordinate form.
    pub fn validate_mov_chars(mov: &str) -> (r: Result<String, String>)
        ensures
            r is Ok <==> coord_ok(sanitize_spec(mov@)),
            r matches Ok(v) ==> v@ == sanitize_spec(mov@),
            r matches Err(e) ==> e@ == shape_err_msg(mov@),
            r matches Err(e) ==> e@.len() > 0,
    {
        let sanitized = Self::sanitize_move(mov);
        match Self::validate_sanitized_move(sanitized.as_str()) {
            Ok(_) => Ok(sanitized),
            Err(e) => Err(e),
        }
    }

    /// Resolves castling shorthand by side, rejects its lowercase and zero
    /// variants explicitly, and shape-checks everything else.
    pub fn validate_move(mov: &Side) -> (r: Result<String, String>)
        ensures
            is_castle_token(side_token(mov)) ==> (r matches Ok(v) && v@ == castle_coord(
                side_is_white(mov),
                side_token(mov),
            )),
            is_bad_castle_token(side_token(mov)) ==> (r matches Err(e) && e@ == bad_castle_msg(
                side_token(mov),
            )),
            !is_castle_token(side_token(mov)) && !is_bad_castle_token(side_token(mov)) ==> ((
            r is Ok <==> coord_ok(sanitize_spec(side_token(mov)))) && (r matches Ok(v) ==> v@
                == sanitize_spec(side_token(mov))) && (r matches Err(e) ==> e@ == shape_err_msg(
                side_token(mov),
            ))),
            r matches Err(e) ==> e@.len() > 0,
    {
        proof {
            reveal_strlit("O-O");
            reveal_strlit("O-O-O");
            reveal_strlit("o-o");
            reveal_strlit("o-o-o");
            reveal_strlit("0-0");
            reveal_strlit("0-0-0");
            assert("O-O"@[0] == 'O' && "o-o"@[0] == 'o' && "0-0"@[0] == '0');
            assert("O-O-O"@[0] == 'O' && "o-o-o"@[0] == 'o' && "0-0-0"@[0] == '0');
            assert("O-O"@.len() == 3 && "O-O-O"@.len() == 5);
            assert("o-o"@.len() == 3 && "0-0"@.len() == 3);
            assert("o-o-o"@.len() == 5 && "0-0-0"@.len() == 5);
            assert("O-O"@ != "o-o"@ && "O-O"@ != "0-0"@ && "O-O"@ != "o-o-o"@ && "O-O"@
                != "0-0-0"@);
            assert("O-O-O"@ != "o-o"@ && "O-O-O"@ != "0-0"@ && "O-O-O"@ != "o-o-o"@ && "O-O-O"@
                != "0-0-0"@);
        }
        let tok = mov.mov_ref();
        let white = match mov {
            Side::White(_) => true,
            Side::Black(_) => false,
        };
        if str_eq(tok, "O-O") {
            return Ok(String::from_str(if white {
                "e1g1"
            } else {
                "e8g8"
            }));
        }
        if str_eq(tok, "O-O-O") {
            return Ok(String::from_str(if white {
                "e1c1"
            } else {
                "e8c8"
            }));
        }
        if str_eq(tok, "o-o") || str_eq(tok, "o-o-o") || str_eq(tok, "0-0") || str_eq(
            tok,
            "0-0-0",
        ) {
            let mut e = String::from_str("expected O-O or O-O-O, got ");
            e.append(tok);
            proof {
                reveal_strlit("expected O-O or O-O-O, got ");
            }
            return Err(e);
        }
        Self::validate_mov_chars(tok)
    }
}

/// The two legal castling tokens.
pub open spec fn is_castle_token(t: Seq<char>) -> bool {
    t == "O-O"@ || t == "O-O-O"@
}

/// The explicitly rejected lowercase and zero castling variants.
pub open spec fn is_bad_castle_token(t: Seq<char>) -> bool {
    t == "o-o"@ || t == "o-o-o"@ || t == "0-0"@ || t == "0-0-0"@
}

/// The king destination encoding of a castling token, by side.
pub open spec fn castle_coord(white: bool, t: Seq<char>) -> Seq<char> {
    if t == "O-O"@ {
        if white {
            "e1g1"@
        } else {
            "e8g8"@
        }
    } else {
        if white {
            "e1c1"@
        } else {
            "e8c8"@
        }
    }
}

/// The message rejecting a lowercase or zero castling variant.
pub open spec fn bad_castle_msg(t: Seq<char>) -> Seq<char> {
    "expected O-O or O-O-O, got "@ + t
}

/// The message rejecting a sanitized token of the wrong length.
pub open spec fn len_err_msg(t: Seq<char>) -> Seq<char> {
    "expected "@ + t + " to have length of 4 or 5"@
}

/// The complaint for an offending file character.
pub open spec fn file_char_msg(c: char) -> Seq<char> {
    "first and third char must be any character between a-h, but got "@ + seq![c]
}

/// The complaint for an offending rank character.
pub open spec fn rank_char_msg(c: char) -> Seq<char> {
    "second and fourth char must be any digit between 1-9, but got "@ + seq![c]
}

/// The complaint for an offending promotion character.
pub open spec fn promo_char_msg(c: char) -> Seq<char> {
    "fifth char must be one of q/r/b/n, but got "@ + seq![c]
}

/// Appends one complaint to a running message, newline-separated.
pub open spec fn joined_msg(acc: Seq<char>, m: Seq<char>) -> Seq<char> {
    if acc.len() == 0 {
        m
    } else {
        acc + "\n"@ + m
    }
}

/// The aggregated message of a 4- or 5-character token: one complaint
/// per offending character position, in order, newline-joined.
pub open spec fn char_errs_msg(s: Seq<char>) -> Seq<char> {
    let m0 = Seq::<char>::empty();
    let m1 = if !is_file_char(s[0]) {
        joined_msg(m0, file_char_msg(s[0]))
    } else {
        m0
    };
    let m2 = if !is_rank_char(s[1]) {
        joined_msg(m1, rank_char_msg(s[1]))
    } else {
        m1
    };
    let m3 = if !is_file_char(s[2]) {
        joined_msg(m2, file_char_msg(s[2]))
    } else {
        m2
    };
    let m4 = if !is_rank_char(s[3]) {
        joined_msg(m3, rank_char_msg(s[3]))
    } else {
        m3
    };
    if s.len() == 5 && !is_promo_char(s[4]) {
        joined_msg(m4, promo_char_msg(s[4]))
    } else {
        m4
    }
}

/// The message a token that fails the shape rules is rejected with: the
/// length complaint, or the per-character complaints of its sanitized
/// form.
pub open spec fn shape_err_msg(t: Seq<char>) -> Seq<char> {
    let s = sanitize_spec(t);
    if s.len() < 4 || s.len() > 5 {
        len_err_msg(s)
    } else {
        char_errs_msg(s)
    }
}

fn is_upper(c: char) -> (r: bool)
    ensures
        r == is_upper_char(c),
{
    'A' <= c && c <= 'Z'
}

fn is_decoration(c: char) -> (r: bool)
    ensures
        r == is_decoration_char(c),
{
    c == 'x' || c == '+' || c == '#' || c == '=' || c == '-'
}

fn is_promo(c: char) -> (r: bool)
    ensures
        r == is_promo_char(c),
{
    c == 'q' || c == 'r' || c == 'b' || c == 'n' || c == 'Q' || c == 'R' || c == 'B' || c == 'N'
}

/// Appends one positional-character complaint to the running message,
/// newline-separated from what came before.
fn push_char_err(errors: &mut String, any: &mut bool, what: &'static str, mov: &str, idx: usize)
    requires
        idx < mov@.len(),
        *old(any) <==> old(errors)@.len() > 0,
    ensures
        final(errors)@ == joined_msg(old(errors)@, what@ + seq![mov@[idx as int]]),
        final(errors)@.len() > 0,
        *final(any),
{
    let n = mov.unicode_len();
    if *any {
        errors.append("\n");
    }
    errors.append(what);
    let piece = mov.substring_char(idx, idx + 1);
    proof {
        assert(piece@ =~= seq![mov@[idx as int]]);
    }
    errors.append(piece);
    *any = true;
}

} // verus!
