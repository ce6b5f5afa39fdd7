//! Character classes and whitespace tokenization shared by the notation
//! validator, the PGN splitter and the engine protocol parser.

use vstd::prelude::*;

verus! {

/// The whitespace characters recognised when splitting move text.
pub open spec fn is_space_char(c: char) -> bool {
    c == ' ' || c == '\t' || c == '\r' || c == '\n'
}

pub fn is_space(c: char) -> (r: bool)
    ensures
        r == is_space_char(c),
{
    c == ' ' || c == '\t' || c == '\r' || c == '\n'
}

/// The whitespace-separated tokens of `s`, in order, without empty tokens.
pub open spec fn split_ws(s: Seq<char>) -> Seq<Seq<char>>
    decreases s.len(),
{
    if s.len() == 0 {
        Seq::<Seq<char>>::empty()
    } else if is_space_char(s[0]) {
        split_ws(s.drop_first())
    } else if s.len() == 1 || is_space_char(s[1]) {
        seq![seq![s[0]]] + split_ws(s.drop_first())
    } else {
        let rest = split_ws(s.drop_first());
        seq![seq![s[0]] + rest[0]] + rest.drop_first()
    }
}

/// The views of a sequence of owned strings.
pub open spec fn views(v: Seq<String>) -> Seq<Seq<char>> {
    v.map_values(|x: String| x@)
}

proof fn lemma_split_ws_token(s: Seq<char>, j: int)
    requires
        0 < j <= s.len(),
        forall|k: int| 0 <= k < j ==> !is_space_char(s[k]),
        j == s.len() || is_space_char(s[j]),
    ensures
        split_ws(s) == seq![s.subrange(0, j)] + split_ws(s.subrange(j, s.len() as int)),
    decreases j,
{
    if j == 1 {
        if s.len() == 1 {
            assert(s.drop_first() =~= s.subrange(1, s.len() as int));
            assert(seq![s[0]] =~= s.subrange(0, 1));
            assert(split_ws(s) =~= seq![s.subrange(0, 1)] + split_ws(
                s.subrange(1, s.len() as int),
            ));
        } else {
            assert(is_space_char(s[1]));
            assert(s.drop_first() =~= s.subrange(1, s.len() as int));
            assert(seq![s[0]] =~= s.subrange(0, 1));
            assert(split_ws(s) =~= seq![s.subrange(0, 1)] + split_ws(
                s.subrange(1, s.len() as int),
            ));
        }
    } else {
        let t = s.drop_first();
        assert(!is_space_char(s[1]));
        assert(forall|k: int| 0 <= k < j - 1 ==> !is_space_char(t[k]));
        lemma_split_ws_token(t, j - 1);
        let rest = split_ws(t);
        assert(rest == seq![t.subrange(0, j - 1)] + split_ws(t.subrange(j - 1, t.len() as int)));
        assert(rest[0] == t.subrange(0, j - 1));
        assert(seq![s[0]] + t.subrange(0, j - 1) =~= s.subrange(0, j));
        assert(rest.drop_first() =~= split_ws(t.subrange(j - 1, t.len() as int)));
        assert(t.subrange(j - 1, t.len() as int) =~= s.subrange(j, s.len() as int));
        assert(split_ws(s) == seq![seq![s[0]] + rest[0]] + rest.drop_first());
        assert(seq![seq![s[0]] + rest[0]] + rest.drop_first() =~= seq![s.subrange(0, j)]
            + split_ws(s.subrange(j, s.len() as int)));
    }
}

proof fn lemma_split_ws_skip(s: Seq<char>, i: int)
    requires
        0 <= i < s.len(),
        is_space_char(s[i]),
    ensures
        split_ws(s.subrange(i, s.len() as int)) == split_ws(s.subrange(i + 1, s.len() as int)),
{
    let t = s.subrange(i, s.len() as int);
    assert(is_space_char(t[0]));
    assert(t.drop_first() =~= s.subrange(i + 1, s.len() as int));
}

fn nonspace_at(s: &str, j: usize) -> (r: bool)
    requires
        j < s@.len(),
    ensures
        r == !is_space_char(s@[j as int]),
{
    !is_space(s.get_char(j))
}

/// Splits `s` at whitespace into its tokens, dropping all whitespace.
pub fn tokenize(s: &str) -> (r: Vec<String>)
    ensures
        views(r@) == split_ws(s@),
{
    let n = s.unicode_len();
    let mut r: Vec<String> = Vec::new();
    let mut i: usize = 0;
    proof {
        assert(s@.subrange(0, n as int) =~= s@);
        assert(views(r@) =~= Seq::<Seq<char>>::empty());
    }
    while i < n
        invariant
            i <= n,
            n == s@.len(),
            views(r@) + split_ws(s@.subrange(i as int, n as int)) == split_ws(s@),
        decreases n - i,
    {
        let c = s.get_char(i);
        if is_space(c) {
            proof {
                lemma_split_ws_skip(s@, i as int);
            }
            i = i + 1;
        } else {
            let start = i;
            let mut j = i + 1;
            while j < n && nonspace_at(s, j)
                invariant
                    start < j <= n,
                    n == s@.len(),
                    forall|k: int| start <= k < j ==> !is_space_char(s@[k]),
                decreases n - j,
            {
                j = j + 1;
            }
            let tok = s.substring_char(start, j);
            let owned = String::from_str(tok);
            proof {
                let tail = s@.subrange(start as int, n as int);
                assert(forall|k: int| 0 <= k < j - start ==> tail[k] == s@[start + k]);
                assert(forall|k: int| 0 <= k < j - start ==> !is_space_char(tail[k]));
                if j < n {
                    assert(tail[j - start] == s@[j as int]);
                }
                lemma_split_ws_token(tail, j - start);
                assert(tail.subrange(0, j - start) =~= s@.subrange(start as int, j as int));
                assert(tail.subrange(j - start, tail.len() as int) =~= s@.subrange(
                    j as int,
                    n as int,
                ));
                assert(views(r@.push(owned)) =~= views(r@) + seq![owned@]);
                assert(views(r@) + split_ws(s@.subrange(start as int, n as int)) == split_ws(s@));
                assert((views(r@) + seq![owned@]) + split_ws(s@.subrange(j as int, n as int))
                    =~= views(r@) + (seq![s@.subrange(start as int, j as int)] + split_ws(
                    s@.subrange(j as int, n as int),
                )));
            }
            r.push(owned);
            i = j;
        }
    }
    proof {
        assert(s@.subrange(n as int, n as int) =~= Seq::<char>::empty());
        assert(views(r@) + Seq::<Seq<char>>::empty() =~= views(r@));
    }
    r
}

/// Character-for-character equality of two string slices.
pub fn str_eq(a: &str, b: &str) -> (r: bool)
    ensures
        r == (a@ == b@),
{
    let n = a.unicode_len();
    let m = b.unicode_len();
    if n != m {
        return false;
    }
    let mut i: usize = 0;
    while i < n
        invariant
            i <= n,
            n == a@.len() == b@.len(),
            forall|k: int| 0 <= k < i ==> a@[k] == b@[k],
        decreases n - i,
    {
        if a.get_char(i) != b.get_char(i) {
            return false;
        }
        i = i + 1;
    }
    proof {
        assert(a@ =~= b@);
    }
    true
}

/// `s` without its leading whitespace.
pub open spec fn trim_front(s: Seq<char>) -> Seq<char>
    decreases s.len(),
{
    if s.len() > 0 && is_space_char(s[0]) {
        trim_front(s.drop_first())
    } else {
        s
    }
}

/// `s` without its trailing whitespace.
pub open spec fn trim_back(s: Seq<char>) -> Seq<char>
    decreases s.len(),
{
    if s.len() > 0 && is_space_char(s.last()) {
        trim_back(s.drop_last())
    } else {
        s
    }
}

/// `s` without leading and trailing whitespace.
pub open spec fn trimmed(s: Seq<char>) -> Seq<char> {
    trim_back(trim_front(s))
}

proof fn lemma_trim_front_step(s: Seq<char>, i: int, n: int)
    requires
        n == s.len(),
        0 <= i < n,
        is_space_char(s[i]),
    ensures
        trim_front(s.subrange(i, n)) == trim_front(s.subrange(i + 1, n)),
{
    let t = s.subrange(i, n);
    assert(t.drop_first() =~= s.subrange(i + 1, n));
}

proof fn lemma_trim_back_step(s: Seq<char>, i: int, j: int, n: int)
    requires
        n == s.len(),
        0 <= i < j <= n,
        is_space_char(s[j - 1]),
    ensures
        trim_back(s.subrange(i, j)) == trim_back(s.subrange(i, j - 1)),
{
    let t = s.subrange(i, j);
    assert(t.last() == s[j - 1]);
    assert(t.drop_last() =~= s.subrange(i, j - 1));
}

/// Drops leading and trailing whitespace, as the engine reader does before
/// matching a sentinel.
pub fn trim(s: &str) -> (r: &str)
    ensures
        r@ == trimmed(s@),
{
    let n = s.unicode_len();
    let mut i: usize = 0;
    proof {
        assert(s@.subrange(0, n as int) =~= s@);
    }
    while i < n && space_at(s, i)
        invariant
            i <= n,
            n == s@.len(),
            trim_front(s@) == trim_front(s@.subrange(i as int, n as int)),
        decreases n - i,
    {
        proof {
            lemma_trim_front_step(s@, i as int, n as int);
        }
        i = i + 1;
    }
    if i == n {
        proof {
            assert(s@.subrange(i as int, n as int) =~= Seq::<char>::empty());
            assert(trim_front(s@) =~= Seq::<char>::empty());
        }
        let r = s.substring_char(n, n);
        proof {
            assert(r@ =~= Seq::<char>::empty());
        }
        return r;
    }
    proof {
        assert(trim_front(s@.subrange(i as int, n as int)) == s@.subrange(i as int, n as int));
    }
    let mut j = n;
    while space_at(s, j - 1)
        invariant
            i < j <= n,
            n == s@.len(),
            !is_space_char(s@[i as int]),
            trim_back(s@.subrange(i as int, n as int)) == trim_back(
                s@.subrange(i as int, j as int),
            ),
        decreases j,
    {
        proof {
            lemma_trim_back_step(s@, i as int, j as int, n as int);
            assert(s@.subrange(i as int, j as int)[0] == s@[i as int]);
        }
        j = j - 1;
    }
    proof {
        let t = s@.subrange(i as int, j as int);
        assert(t.last() == s@[j - 1]);
        assert(trim_back(t) == t);
    }
    s.substring_char(i, j)
}

fn space_at(s: &str, j: usize) -> (r: bool)
    requires
        j < s@.len(),
    ensures
        r == is_space_char(s@[j as int]),
{
    is_space(s.get_char(j))
}

/// `needle` occurs in `hay` starting at position `i`.
pub open spec fn contains_at(hay: Seq<char>, needle: Seq<char>, i: int) -> bool {
    0 <= i && i + needle.len() <= hay.len() && hay.subrange(i, i + needle.len() as int) == needle
}

/// `needle` occurs somewhere in `hay`.
pub open spec fn contains_sub(hay: Seq<char>, needle: Seq<char>) -> bool {
    exists|i: int| contains_at(hay, needle, i)
}

/// Substring search, used for sentinel detection and result markers.
pub fn str_contains(hay: &str, needle: &str) -> (r: bool)
    ensures
        r == contains_sub(hay@, needle@),
{
    let n = hay.unicode_len();
    let m = needle.unicode_len();
    if m > n {
        proof {
            assert(forall|i: int| !contains_at(hay@, needle@, i));
        }
        return false;
    }
    if m == 0 {
        proof {
            assert(hay@.subrange(0, 0) =~= needle@);
            assert(contains_at(hay@, needle@, 0));
        }
        return true;
    }
    let mut i: usize = 0;
    while i <= n - m
        invariant
            1 <= m <= n,
            n == hay@.len(),
            m == needle@.len(),
            i <= n - m + 1,
            forall|k: int| 0 <= k < i ==> !contains_at(hay@, needle@, k),
        decreases n - m - i + 1,
    {
        let mut j: usize = 0;
        let mut matched = true;
        while j < m
            invariant
                i + m <= n,
                n == hay@.len(),
                m == needle@.len(),
                j <= m,
                matched ==> forall|k: int| 0 <= k < j ==> hay@[i + k] == needle@[k],
                !matched ==> !contains_at(hay@, needle@, i as int),
            decreases m - j,
        {
            if hay.get_char(i + j) != needle.get_char(j) {
                proof {
                    if contains_at(hay@, needle@, i as int) {
                        assert(hay@.subrange(i as int, i + m as int)[j as int] == hay@[i + j]);
                    }
                }
                matched = false;
                j = m;
            } else {
                j = j + 1;
            }
        }
        if matched {
            proof {
                assert(hay@.subrange(i as int, i + m as int) =~= needle@);
                assert(contains_at(hay@, needle@, i as int));
            }
            return true;
        }
        i = i + 1;
    }
    proof {
        assert forall|k: int| !contains_at(hay@, needle@, k) by {
            if 0 <= k <= n - m {
                assert(!contains_at(hay@, needle@, k));
            }
        }
    }
    false
}

/// The decimal digits of `n`, most significant first.
pub open spec fn dec_digits(n: nat) -> Seq<char>
    decreases n,
{
    if n < 10 {
        seq![digit_char(n)]
    } else {
        dec_digits(n / 10) + seq![digit_char(n % 10)]
    }
}

/// The character for a single decimal digit.
pub open spec fn digit_char(d: nat) -> char {
    if d == 0 {
        '0'
    } else if d == 1 {
        '1'
    } else if d == 2 {
        '2'
    } else if d == 3 {
        '3'
    } else if d == 4 {
        '4'
    } else if d == 5 {
        '5'
    } else if d == 6 {
        '6'
    } else if d == 7 {
        '7'
    } else if d == 8 {
        '8'
    } else {
        '9'
    }
}

fn digit_str(d: usize) -> (r: &'static str)
    requires
        d < 10,
    ensures
        r@ =~= seq![digit_char(d as nat)],
{
    proof {
        reveal_strlit("0");
        reveal_strlit("1");
        reveal_strlit("2");
        reveal_strlit("3");
        reveal_strlit("4");
        reveal_strlit("5");
        reveal_strlit("6");
        reveal_strlit("7");
        reveal_strlit("8");
        reveal_strlit("9");
    }
    let r = if d == 0 {
        "0"
    } else if d == 1 {
        "1"
    } else if d == 2 {
        "2"
    } else if d == 3 {
        "3"
    } else if d == 4 {
        "4"
    } else if d == 5 {
        "5"
    } else if d == 6 {
        "6"
    } else if d == 7 {
        "7"
    } else {
        "8"
    };
    if d == 9 {
        "9"
    } else {
        r
    }
}

/// Renders `n` in decimal, used for move numbers and search depths.
pub fn usize_to_string(n: usize) -> (r: String)
    ensures
        r@ == dec_digits(n as nat),
    decreases n,
{
    if n < 10 {
        String::from_str(digit_str(n))
    } else {
        let mut r = usize_to_string(n / 10);
        r.append(digit_str(n % 10));
        r
    }
}

/// Numeric value of a digit character; zero for anything else.
pub open spec fn digit_val(c: char) -> nat {
    if c == '1' {
        1
    } else if c == '2' {
        2
    } else if c == '3' {
        3
    } else if c == '4' {
        4
    } else if c == '5' {
        5
    } else if c == '6' {
        6
    } else if c == '7' {
        7
    } else if c == '8' {
        8
    } else if c == '9' {
        9
    } else {
        0
    }
}

pub open spec fn is_digit_char(c: char) -> bool {
    c == '0' || c == '1' || c == '2' || c == '3' || c == '4' || c == '5' || c == '6' || c == '7'
        || c == '8' || c == '9'
}

pub fn is_digit(c: char) -> (r: bool)
    ensures
        r == is_digit_char(c),
{
    c == '0' || c == '1' || c == '2' || c == '3' || c == '4' || c == '5' || c == '6' || c == '7'
        || c == '8' || c == '9'
}

/// The value of a digit string, most significant digit first.
pub open spec fn dec_value(s: Seq<char>) -> nat
    decreases s.len(),
{
    if s.len() == 0 {
        0
    } else {
        dec_value(s.drop_last()) * 10 + digit_val(s.last())
    }
}

pub open spec fn all_digits(s: Seq<char>) -> bool {
    forall|i: int| 0 <= i < s.len() ==> is_digit_char(s[i])
}

/// `s` is a decimal numeral that a 64-bit unsigned parse accepts: an
/// optional leading `+`, then at least one digit, with a value in range.
pub open spec fn is_u64_numeral(s: Seq<char>) -> bool {
    let d = if s.len() > 0 && s[0] == '+' {
        s.drop_first()
    } else {
        s
    };
    d.len() > 0 && all_digits(d) && dec_value(d) <= u64::MAX
}

proof fn lemma_dec_value_extend(s: Seq<char>, i: int)
    requires
        0 <= i <= s.len(),
    ensures
        dec_value(s.subrange(0, i)) <= dec_value(s),
    decreases s.len() - i,
{
    if i == s.len() {
        assert(s.subrange(0, i) =~= s);
    } else {
        let t = s.subrange(0, i + 1);
        assert(t.drop_last() =~= s.subrange(0, i));
        assert(dec_value(s.subrange(0, i)) <= dec_value(t));
        lemma_dec_value_extend(s, i + 1);
        assert(s.subrange(0, i + 1) =~= t);
    }
}

/// Decides whether `s` is a numeral accepted by a 64-bit unsigned parse,
/// as move-number markers such as `12.` carry before the dot.
pub fn is_u64_numeral_exec(s: &str) -> (r: bool)
    ensures
        r == is_u64_numeral(s@),
{
    let n = s.unicode_len();
    if n == 0 {
        return false;
    }
    let first_plus = s.get_char(0) == '+';
    let start: usize = if first_plus {
        1
    } else {
        0
    };
    proof {
        if first_plus {
            assert(s@.drop_first() =~= s@.subrange(1, n as int));
        } else {
            assert(s@ =~= s@.subrange(0, n as int));
        }
    }
    if start == n {
        return false;
    }
    let ghost d = s@.subrange(start as int, n as int);
    let mut acc: u64 = 0;
    let mut i = start;
    while i < n
        invariant
            start <= i <= n,
            start < n,
            n == s@.len(),
            d == s@.subrange(start as int, n as int),
            d == (if s@.len() > 0 && s@[0] == '+' {
                s@.drop_first()
            } else {
                s@
            }),
            all_digits(d.subrange(0, i - start)),
            acc == dec_value(d.subrange(0, i - start)),
        decreases n - i,
    {
        let c = s.get_char(i);
        if !is_digit(c) {
            proof {
                assert(d[i - start] == s@[i as int]);
                assert(!all_digits(d));
            }
            return false;
        }
        let dv: u64 = digit_value(c);
        if acc > (u64::MAX - dv) / 10 {
            proof {
                let p = d.subrange(0, i - start + 1);
                assert(p.drop_last() =~= d.subrange(0, i - start));
                assert(p.last() == d[i - start]);
                assert(d[i - start] == s@[i as int]);
                assert(dec_value(p) == acc * 10 + dv);
                let m2 = (u64::MAX - dv) as int;
                assert(m2 == 10 * (m2 / 10) + m2 % 10);
                assert(0 <= m2 % 10 < 10);
                assert(acc >= m2 / 10 + 1);
                assert(acc * 10 >= 10 * (m2 / 10) + 10);
                assert(acc * 10 + dv > u64::MAX);
                assert(dec_value(p) > u64::MAX);
                lemma_dec_value_extend(d, i - start + 1);
                if all_digits(d) {
                    assert(dec_value(d) > u64::MAX);
                }
            }
            return false;
        }
        proof {
            let m2 = (u64::MAX - dv) as int;
            assert(m2 == 10 * (m2 / 10) + m2 % 10);
            assert(0 <= m2 % 10 < 10);
            assert(acc <= m2 / 10);
            assert(acc * 10 <= 10 * (m2 / 10));
            assert(acc * 10 + dv <= u64::MAX);
            let p = d.subrange(0, i - start + 1);
            assert(p.drop_last() =~= d.subrange(0, i - start));
            assert(p.last() == d[i - start]);
            assert(d[i - start] == s@[i as int]);
            assert(is_digit_char(p.last()));
            assert forall|k: int| 0 <= k < p.len() implies is_digit_char(p[k]) by {
                if k < p.len() - 1 {
                    assert(p[k] == d.subrange(0, i - start)[k]);
                }
            }
            assert(all_digits(p));
            assert(dec_value(p) == acc * 10 + dv);
        }
        acc = acc * 10 + dv;
        i = i + 1;
    }
    proof {
        assert(d.subrange(0, n - start) =~= d);
    }
    true
}

fn digit_value(c: char) -> (r: u64)
    requires
        is_digit_char(c),
    ensures
        r == digit_val(c),
        r < 10,
{
    if c == '1' {
        1
    } else if c == '2' {
        2
    } else if c == '3' {
        3
    } else if c == '4' {
        4
    } else if c == '5' {
        5
    } else if c == '6' {
        6
    } else if c == '7' {
        7
    } else if c == '8' {
        8
    } else if c == '9' {
        9
    } else {
        0
    }
}

/// Position of the first `.` in `t`, or `t.len()` if there is none.
pub open spec fn dot_idx(t: Seq<char>) -> int
    decreases t.len(),
{
    if t.len() == 0 {
        0
    } else if t[0] == '.' {
        0
    } else {
        1 + dot_idx(t.drop_first())
    }
}

pub proof fn lemma_dot_idx_value(s: Seq<char>, m: int)
    requires
        0 <= m <= s.len(),
        forall|j: int| 0 <= j < m ==> s[j] != '.',
        m == s.len() || s[m] == '.',
    ensures
        dot_idx(s) == m,
    decreases m,
{
    if s.len() == 0 {
    } else if m == 0 {
    } else {
        let t = s.drop_first();
        assert(forall|j: int| 0 <= j < m - 1 ==> t[j] == s[j + 1]);
        lemma_dot_idx_value(t, m - 1);
    }
}

} // verus!
