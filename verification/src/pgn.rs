//! Splitting recorded game files: removing tag metadata, cutting the
//! text into individual games at result markers, and extracting the raw
//! move tokens of one game.

use vstd::prelude::*;

use crate::text::contains_sub;
use crate::text::dot_idx;
use crate::text::lemma_dot_idx_value;
use crate::text::str_contains;
use crate::text::views;
use crate::text::split_ws;

verus! {

/// Position of the first line break in `s`, or `s.len()` if there is
/// none.
pub open spec fn nl_idx(s: Seq<char>) -> int
    decreases s.len(),
{
    if s.len() == 0 {
        0
    } else if s[0] == '\n' {
        0
    } else {
        1 + nl_idx(s.drop_first())
    }
}

proof fn lemma_nl_idx_value(s: Seq<char>, m: int)
    requires
        0 <= m <= s.len(),
        forall|j: int| 0 <= j < m ==> s[j] != '\n',
        m == s.len() || s[m] == '\n',
    ensures
        nl_idx(s) == m,
    decreases m,
{
    if s.len() == 0 {
    } else if m == 0 {
    } else {
        let t = s.drop_first();
        assert(forall|j: int| 0 <= j < m - 1 ==> t[j] == s[j + 1]);
        lemma_nl_idx_value(t, m - 1);
    }
}

/// A line without a trailing carriage return.
pub open spec fn strip_cr(t: Seq<char>) -> Seq<char> {
    if t.len() > 0 && t.last() == '\r' {
        t.drop_last()
    } else {
        t
    }
}

proof fn lemma_nl_idx_nonneg(s: Seq<char>)
    ensures
        nl_idx(s) >= 0,
    decreases s.len(),
{
    if s.len() > 0 && s[0] != '\n' {
        lemma_nl_idx_nonneg(s.drop_first());
    }
}

/// The lines of `s`, split at line breaks, trailing carriage returns
/// removed; a trailing line break opens no empty last line.
pub open spec fn split_nl(s: Seq<char>) -> Seq<Seq<char>>
    decreases s.len(),
    via split_nl_decreases
{
    if s.len() == 0 {
        Seq::<Seq<char>>::empty()
    } else {
        let k = nl_idx(s);
        if k >= s.len() {
            seq![strip_cr(s)]
        } else {
            seq![strip_cr(s.subrange(0, k))] + split_nl(s.subrange(k + 1, s.len() as int))
        }
    }
}

#[via_fn]
proof fn split_nl_decreases(s: Seq<char>) {
    lemma_nl_idx_nonneg(s);
}

/// A line that survives metadata stripping: non-empty and not a tag.
pub open spec fn line_kept(l: Seq<char>) -> bool {
    l.len() > 0 && l[0] != '['
}

/// The kept lines, each with one line break appended.
pub open spec fn kept_lines(ls: Seq<Seq<char>>) -> Seq<Seq<char>>
    decreases ls.len(),
{
    if ls.len() == 0 {
        Seq::<Seq<char>>::empty()
    } else if line_kept(ls.last()) {
        kept_lines(ls.drop_last()) + seq![ls.last() + "\n"@]
    } else {
        kept_lines(ls.drop_last())
    }
}

/// The result of metadata stripping on raw file text.
pub open spec fn strip_metadata_spec(s: Seq<char>) -> Seq<Seq<char>> {
    kept_lines(split_nl(s))
}

proof fn lemma_split_nl_peel(s: Seq<char>, p: int, q: int)
    requires
        0 <= p <= q <= s.len(),
        p < s.len(),
        forall|j: int| p <= j < q ==> s[j] != '\n',
        q == s.len() || s[q] == '\n',
    ensures
        split_nl(s.subrange(p, s.len() as int)) == seq![strip_cr(s.subrange(p, q))] + (if q
            == s.len() {
            Seq::<Seq<char>>::empty()
        } else {
            split_nl(s.subrange(q + 1, s.len() as int))
        }),
{
    let n = s.len() as int;
    let t = s.subrange(p, n);
    assert(forall|j: int| 0 <= j < q - p ==> t[j] == s[p + j]);
    if q < n {
        assert(t[q - p] == s[q]);
    }
    lemma_nl_idx_value(t, q - p);
    if q == n {
        assert(t =~= s.subrange(p, q));
        assert(split_nl(t) =~= seq![strip_cr(s.subrange(p, q))]);
        assert(seq![strip_cr(s.subrange(p, q))] + Seq::<Seq<char>>::empty() =~= seq![
            strip_cr(s.subrange(p, q)),
        ]);
    } else {
        assert(t.subrange(0, q - p) =~= s.subrange(p, q));
        assert(t.subrange(q - p + 1, t.len() as int) =~= s.subrange(q + 1, n));
    }
}

fn newline_at(s: &str, j: usize) -> (r: bool)
    requires
        j < s@.len(),
    ensures
        r == (s@[j as int] == '\n'),
{
    s.get_char(j) == '\n'
}

/// Removes tag lines and empty lines from raw game-file text; each kept
/// line keeps one line break at its end.
pub fn strip_metadata(pgn: &str) -> (r: Vec<String>)
    ensures
        views(r@) == strip_metadata_spec(pgn@),
{
    let n = pgn.unicode_len();
    let mut r: Vec<String> = Vec::new();
    let ghost mut acc: Seq<Seq<char>> = Seq::empty();
    let mut p: usize = 0;
    proof {
        assert(pgn@.subrange(0, n as int) =~= pgn@);
        assert(views(r@) =~= kept_lines(acc));
    }
    while p < n
        invariant
            p <= n,
            n == pgn@.len(),
            acc + split_nl(pgn@.subrange(p as int, n as int)) == split_nl(pgn@),
            views(r@) == kept_lines(acc),
        decreases n - p,
    {
        let mut q = p;
        while q < n && !newline_at(pgn, q)
            invariant
                p <= q <= n,
                n == pgn@.len(),
                forall|j: int| p <= j < q ==> pgn@[j] != '\n',
            decreases n - q,
        {
            q = q + 1;
        }
        let line_end = if q > p && pgn.get_char(q - 1) == '\r' {
            q - 1
        } else {
            q
        };
        let line = pgn.substring_char(p, line_end);
        proof {
            lemma_split_nl_peel(pgn@, p as int, q as int);
            assert(line@ =~= strip_cr(pgn@.subrange(p as int, q as int)));
            let l = strip_cr(pgn@.subrange(p as int, q as int));
            assert((acc.push(l)).drop_last() =~= acc);
            assert((acc.push(l)).last() == l);
            if q < n {
                assert(acc.push(l) + split_nl(pgn@.subrange(q + 1, n as int)) =~= acc + (seq![l]
                    + split_nl(pgn@.subrange(q + 1, n as int))));
            } else {
                assert(pgn@.subrange(n as int, n as int) =~= Seq::<char>::empty());
                assert(acc.push(l) + split_nl(pgn@.subrange(n as int, n as int)) =~= acc + (seq![l]
                    + Seq::<Seq<char>>::empty()));
            }
        }
        let keep = line_kept_exec(line);
        if keep {
            let mut owned = String::from_str(line);
            owned.append("\n");
            proof {
                let l = strip_cr(pgn@.subrange(p as int, q as int));
                assert(views(r@.push(owned)) =~= views(r@) + seq![owned@]);
                assert(kept_lines(acc.push(l)) =~= kept_lines(acc) + seq![l + "\n"@]);
            }
            r.push(owned);
        } else {
            proof {
                let l = strip_cr(pgn@.subrange(p as int, q as int));
                assert(kept_lines(acc.push(l)) =~= kept_lines(acc));
            }
        }
        proof {
            acc = acc.push(strip_cr(pgn@.subrange(p as int, q as int)));
        }
        p = if q < n {
            q + 1
        } else {
            n
        };
    }
    proof {
        assert(pgn@.subrange(n as int, n as int) =~= Seq::<char>::empty());
        assert(acc + Seq::<Seq<char>>::empty() =~= acc);
    }
    r
}

fn line_kept_exec(line: &str) -> (r: bool)
    ensures
        r == line_kept(line@),
{
    let n = line.unicode_len();
    n > 0 && line.get_char(0) != '['
}

/// A line that closes a game: it carries a result marker.
pub open spec fn has_result(l: Seq<char>) -> bool {
    contains_sub(l, "1-0"@) || contains_sub(l, "0-1"@) || contains_sub(l, "1/2"@)
}

/// The games accumulated from a line list, given the text carried over
/// so far; lines are joined until one carries a result marker, and an
/// unfinished trailing buffer is dropped.
pub open spec fn games_from(ls: Seq<Seq<char>>, buf: Seq<char>) -> Seq<Seq<char>>
    decreases ls.len(),
{
    if ls.len() == 0 {
        Seq::<Seq<char>>::empty()
    } else {
        let b2 = buf + ls[0];
        if has_result(ls[0]) {
            seq![b2] + games_from(ls.drop_first(), Seq::<char>::empty())
        } else {
            games_from(ls.drop_first(), b2)
        }
    }
}

/// One game text per result marker found in the stripped lines.
pub open spec fn split_pgns_spec(s: Seq<char>) -> Seq<Seq<char>> {
    games_from(strip_metadata_spec(s), Seq::<char>::empty())
}

/// Splits raw game-file text into individual game texts: metadata is
/// stripped, and lines are joined until a result marker closes each
/// game.
pub fn split_pgns(pgns: &str) -> (r: Vec<String>)
    ensures
        views(r@) == split_pgns_spec(pgns@),
{
    let formatted = strip_metadata(pgns);
    let m = formatted.len();
    let mut r: Vec<String> = Vec::new();
    let mut buf = String::new();
    let mut j: usize = 0;
    proof {
        assert(views(formatted@).subrange(0, m as int) =~= views(formatted@));
        assert(views(r@) + games_from(views(formatted@), buf@) =~= games_from(
            views(formatted@),
            Seq::<char>::empty(),
        ));
    }
    while j < m
        invariant
            j <= m,
            m == formatted@.len(),
            views(r@) + games_from(views(formatted@).subrange(j as int, m as int), buf@)
                == split_pgns_spec(pgns@),
            views(formatted@) == strip_metadata_spec(pgns@),
        decreases m - j,
    {
        let line = &formatted[j];
        buf.append(line.as_str());
        proof {
            let rest = views(formatted@).subrange(j as int, m as int);
            assert(rest[0] == formatted@[j as int]@);
            assert(rest.drop_first() =~= views(formatted@).subrange(j + 1, m as int));
        }
        if str_contains(line.as_str(), "1-0") || str_contains(line.as_str(), "0-1")
            || str_contains(line.as_str(), "1/2") {
            proof {
                let rest = views(formatted@).subrange(j as int, m as int);
                assert(views(r@.push(buf)) =~= views(r@) + seq![buf@]);
                assert((views(r@) + seq![buf@]) + games_from(rest.drop_first(), Seq::<char>::empty())
                    =~= views(r@) + (seq![buf@] + games_from(rest.drop_first(), Seq::<char>::empty())));
            }
            r.push(buf);
            buf = String::new();
        }
        j = j + 1;
    }
    proof {
        assert(views(formatted@).subrange(m as int, m as int) =~= Seq::<Seq<char>>::empty());
        assert(views(r@) + Seq::<Seq<char>>::empty() =~= views(r@));
    }
    r
}

/// Position of the last plain space in `s`, or `-1` if there is none.
pub open spec fn rfind_space(s: Seq<char>) -> int
    decreases s.len(),
{
    if s.len() == 0 {
        -1
    } else if s.last() == ' ' {
        s.len() - 1
    } else {
        rfind_space(s.drop_last())
    }
}

proof fn lemma_rfind_space_exists(s: Seq<char>, w: int)
    requires
        0 <= w < s.len(),
        s[w] == ' ',
    ensures
        w <= rfind_space(s) < s.len(),
        s[rfind_space(s)] == ' ',
    decreases s.len(),
{
    if s.last() == ' ' {
    } else {
        assert(w < s.len() - 1);
        lemma_rfind_space_exists(s.drop_last(), w);
    }
}

/// A token with everything through its first dot removed, as move
/// numbers glued to moves are written (`1.e4`).
pub open spec fn strip_through_dot(t: Seq<char>) -> Seq<char> {
    if dot_idx(t) < t.len() {
        t.subrange(dot_idx(t) + 1, t.len() as int)
    } else {
        t
    }
}

/// Every token with its move-number prefix removed.
pub open spec fn strip_nums(ts: Seq<Seq<char>>) -> Seq<Seq<char>>
    decreases ts.len(),
{
    if ts.len() == 0 {
        Seq::<Seq<char>>::empty()
    } else {
        strip_nums(ts.drop_last()) + seq![strip_through_dot(ts.last())]
    }
}

fn space_char_at(s: &str, j: usize) -> (r: bool)
    requires
        j < s@.len(),
    ensures
        r == (s@[j as int] == ' '),
{
    s.get_char(j) == ' '
}

fn dot_at(s: &str, j: usize) -> (r: bool)
    requires
        j < s@.len(),
    ensures
        r == (s@[j as int] == '.'),
{
    s.get_char(j) == '.'
}

/// Extracts the raw move tokens of one game text: everything before the
/// final space (the result marker) is split on whitespace, and a glued
/// move-number prefix is cut from each token.
pub fn move_sequence(notation: &str) -> (r: Vec<String>)
    requires
        exists|i: int| 0 <= i < notation@.len() && notation@[i] == ' ',
    ensures
        views(r@) == strip_nums(split_ws(notation@.subrange(0, rfind_space(notation@)))),
{
    let n = notation.unicode_len();
    proof {
        let w = choose|i: int| 0 <= i < notation@.len() && notation@[i] == ' ';
        lemma_rfind_space_exists(notation@, w);
        assert(notation@.subrange(0, n as int) =~= notation@);
    }
    let mut j = n;
    while !space_char_at(notation, j - 1)
        invariant
            0 < j <= n,
            n == notation@.len(),
            rfind_space(notation@) == rfind_space(notation@.subrange(0, j as int)),
            rfind_space(notation@) >= 0,
        decreases j,
    {
        proof {
            let t = notation@.subrange(0, j as int);
            assert(t.drop_last() =~= notation@.subrange(0, j - 1));
            if j - 1 == 0 {
                assert(rfind_space(notation@.subrange(0, 0)) == -1);
            }
        }
        j = j - 1;
    }
    let last_space = j - 1;
    proof {
        let t = notation@.subrange(0, j as int);
        assert(t.last() == notation@[j - 1]);
        assert(rfind_space(t) == j - 1);
    }
    let prefix = notation.substring_char(0, last_space);
    let ts = crate::text::tokenize(prefix);
    let mut r: Vec<String> = Vec::new();
    let mut i: usize = 0;
    proof {
        assert(views(ts@).subrange(0, 0) =~= Seq::<Seq<char>>::empty());
        assert(views(r@) =~= strip_nums(views(ts@).subrange(0, 0)));
    }
    while i < ts.len()
        invariant
            i <= ts@.len(),
            views(r@) == strip_nums(views(ts@).subrange(0, i as int)),
        decreases ts@.len() - i,
    {
        let stripped = strip_token(&ts[i]);
        proof {
            let vs = views(ts@);
            let p = vs.subrange(0, i + 1);
            assert(p.drop_last() =~= vs.subrange(0, i as int));
            assert(p.last() == ts@[i as int]@);
            assert(views(r@.push(stripped)) =~= views(r@) + seq![stripped@]);
        }
        r.push(stripped);
        i = i + 1;
    }
    proof {
        assert(views(ts@).subrange(0, ts@.len() as int) =~= views(ts@));
    }
    r
}

/// Cuts everything through the first dot from one token.
fn strip_token(tok: &String) -> (r: String)
    ensures
        r@ == strip_through_dot(tok@),
{
    let s = tok.as_str();
    let n = s.unicode_len();
    let mut k: usize = 0;
    while k < n && !dot_at(s, k)
        invariant
            k <= n,
            n == s@.len(),
            forall|j: int| 0 <= j < k ==> s@[j] != '.',
        decreases n - k,
    {
        k = k + 1;
    }
    proof {
        lemma_dot_idx_value(s@, k as int);
    }
    if k < n {
        String::from_str(s.substring_char(k + 1, n))
    } else {
        String::from_str(s)
    }
}

} // verus!
