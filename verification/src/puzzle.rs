//! Puzzle data: coordinate moves as structured values, difficulty levels,
//! and the puzzle result type.

use vstd::prelude::*;

verus! {

/// A coordinate string of the wrong length for a move.
#[derive(Debug)]
pub struct InvalidMoveFormat;

/// A move as origin square, destination square and optional promotion
/// letter; constructed only from 4- or 5-character coordinate strings.
#[derive(Debug, Clone)]
pub struct Move {
    from: String,
    to: String,
    promotion: Option<String>,
}

/// The promotion letter in lowercase; other characters unchanged.
pub open spec fn lower_promo(c: char) -> char {
    if c == 'Q' {
        'q'
    } else if c == 'R' {
        'r'
    } else if c == 'B' {
        'b'
    } else if c == 'N' {
        'n'
    } else {
        c
    }
}

/// `m` is the parse of the coordinate string `s`: the squares are the
/// first and second character pairs, the promotion letter is stored in
/// lowercase.
pub closed spec fn parsed_from(m: Move, s: Seq<char>) -> bool {
    &&& m.from@ == s.subrange(0, 2)
    &&& m.to@ == s.subrange(2, 4)
    &&& if s.len() == 5 {
        m.promotion matches Some(p) && p@ == seq![lower_promo(s[4])]
    } else {
        m.promotion is None
    }
}

/// The rendering of a move: origin, destination, then the promotion
/// letter if any.
pub closed spec fn move_coord(m: Move) -> Seq<char> {
    m.from@ + m.to@ + (match m.promotion {
        Some(p) => p@,
        None => Seq::<char>::empty(),
    })
}

impl Move {
    /// Parses a 4- or 5-character coordinate string; the promotion letter
    /// is stored in lowercase.
    pub fn from_str(s: &str) -> (r: Result<Move, InvalidMoveFormat>)
        ensures
            r is Ok <==> (s@.len() == 4 || s@.len() == 5),
            r matches Ok(m) ==> parsed_from(m, s@),
            r matches Ok(m) ==> m.spec_from() == s@.subrange(0, 2) && m.spec_to() == s@.subrange(
                2,
                4,
            ),
            r matches Ok(m) ==> (s@.len() == 5 ==> (m.spec_promotion() matches Some(p) && p
                == seq![lower_promo(s@[4])])),
            r matches Ok(m) ==> (s@.len() == 4 ==> m.spec_promotion() is None),
    {
        let n = s.unicode_len();
        if n != 4 && n != 5 {
            return Err(InvalidMoveFormat);
        }
        let from = String::from_str(s.substring_char(0, 2));
        let to = String::from_str(s.substring_char(2, 4));
        if n == 4 {
            Ok(Move { from, to, promotion: None })
        } else {
            let p = promo_lower_str(s.get_char(4), s);
            Ok(Move { from, to, promotion: Some(p) })
        }
    }

    /// The origin square.
    pub fn from_square(&self) -> (r: &str)
        ensures
            r@ == self.spec_from(),
    {
        self.from.as_str()
    }

    /// The destination square.
    pub fn to_square(&self) -> (r: &str)
        ensures
            r@ == self.spec_to(),
    {
        self.to.as_str()
    }

    /// The promotion letter, if the move promotes.
    pub fn promotion(&self) -> (r: Option<&str>)
        ensures
            match r {
                Some(p) => self.spec_promotion() matches Some(q) && p@ == q,
                None => self.spec_promotion() is None,
            },
    {
        match &self.promotion {
            Some(p) => Some(p.as_str()),
            None => None,
        }
    }

    /// The origin square of the move.
    pub closed spec fn spec_from(&self) -> Seq<char> {
        self.from@
    }

    /// The destination square of the move.
    pub closed spec fn spec_to(&self) -> Seq<char> {
        self.to@
    }

    /// The promotion letter of the move, if any.
    pub closed spec fn spec_promotion(&self) -> Option<Seq<char>> {
        match self.promotion {
            Some(p) => Some(p@),
            None => None,
        }
    }

    /// Renders the move back to coordinate notation.
    pub fn to_coord(&self) -> (r: String)
        ensures
            r@ == move_coord(*self),
    {
        let mut r = String::new();
        r.append(self.from.as_str());
        r.append(self.to.as_str());
        match &self.promotion {
            Some(p) => {
                r.append(p.as_str());
            },
            None => {},
        }
        r
    }
}

/// Renders the character at offset 4 of `s` in lowercase as an owned
/// one-character string.
fn promo_lower_str(c: char, s: &str) -> (r: String)
    requires
        s@.len() == 5,
        c == s@[4],
    ensures
        r@ == seq![lower_promo(c)],
{
    proof {
        reveal_strlit("q");
        reveal_strlit("r");
        reveal_strlit("b");
        reveal_strlit("n");
    }
    if c == 'Q' {
        String::from_str("q")
    } else if c == 'R' {
        String::from_str("r")
    } else if c == 'B' {
        String::from_str("b")
    } else if c == 'N' {
        String::from_str("n")
    } else {
        let sub = s.substring_char(4, 5);
        proof {
            assert(sub@ =~= seq![s@[4]]);
        }
        String::from_str(sub)
    }
}

/// Law: parsing a canonical coordinate string of length 4 and rendering
/// the move reproduces the string exactly; with length 5 the squares are
/// reproduced and the promotion letter is preserved in lowercase.
pub proof fn lemma_move_round_trip(m: Move, s: Seq<char>)
    requires
        s.len() == 4 || s.len() == 5,
        parsed_from(m, s),
    ensures
        s.len() == 4 ==> move_coord(m) == s,
        s.len() == 5 ==> move_coord(m) == s.subrange(0, 4) + seq![lower_promo(s[4])],
{
    if s.len() == 4 {
        assert(move_coord(m) =~= s);
    } else {
        assert(move_coord(m) =~= s.subrange(0, 4) + seq![lower_promo(s[4])]);
    }
}

/// Puzzle difficulty; the numeric value scales the solution length.
#[derive(Clone, Copy, Debug, PartialEq, Eq, Structural)]
pub enum PuzzleLevel {
    Easy,
    Medium,
    Hard,
}

impl PuzzleLevel {
    /// The numeric multiplier of a level.
    pub open spec fn spec_number(&self) -> u8 {
        match self {
            PuzzleLevel::Easy => 1,
            PuzzleLevel::Medium => 2,
            PuzzleLevel::Hard => 3,
        }
    }

    /// Converts the difficulty level to its numeric multiplier; the
    /// solution holds twice this many half-moves.
    pub fn as_number(&self) -> (n: u8)
        ensures
            n == self.spec_number(),
            1 <= n <= 3,
    {
        match self {
            PuzzleLevel::Easy => 1,
            PuzzleLevel::Medium => 2,
            PuzzleLevel::Hard => 3,
        }
    }
}

/// A generated puzzle: its level, the move marking the start position,
/// and the full move list including the appended solution.
#[derive(Debug, Clone)]
pub struct Puzzle {
    pub lvl: PuzzleLevel,
    pub start_pos: String,
    pub notation: Vec<String>,
}

} // verus!
