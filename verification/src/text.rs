//! Character-sequence helpers shared by the parser, the resolver and the
//! emitter: scanning for a stop character, containment, per-character
//! replacement, and decimal rendering of counters.

use vstd::prelude::*;

verus! {

/// The predicate of being the character `c`; the canonical form that the
/// scanning contracts below are stated over.
pub open spec fn char_pred(c: char) -> spec_fn(char) -> bool {
    |x: char| x == c
}

/// Index of the first position `j >= i` in `s` with `p(s[j])`, or `s.len()`
/// when no such position exists (also for `i` past the end).
pub open spec fn spec_find(s: Seq<char>, i: int, p: spec_fn(char) -> bool) -> int
    decreases s.len() - i when 0 <= i
{
    if i >= s.len() {
        s.len() as int
    } else if p(s[i]) {
        i
    } else {
        spec_find(s, i + 1, p)
    }
}

/// What `spec_find` returns: a position between `i` and `s.len()`, no match
/// strictly before it, and a match at it unless it is the end.
pub proof fn lemma_spec_find(s: Seq<char>, i: int, p: spec_fn(char) -> bool)
    requires
        0 <= i <= s.len(),
    ensures
        i <= spec_find(s, i, p) <= s.len(),
        forall|k: int| i <= k < spec_find(s, i, p) ==> !p(s[k]),
        spec_find(s, i, p) < s.len() ==> p(s[spec_find(s, i, p)]),
    decreases s.len() - i,
{
    if i < s.len() && !p(s[i]) {
        lemma_spec_find(s, i + 1, p);
    }
}

/// Finds the first occurrence of `c` in `s` at or after byte-independent
/// character index `i`; returns `s@.len()` when there is none.
pub fn find_char(s: &str, i: usize, c: char) -> (r: usize)
    requires
        i <= s@.len(),
    ensures
        r == spec_find(s@, i as int, char_pred(c)),
{
    let ghost p = char_pred(c);
    let n = s.unicode_len();
    let mut j = i;
    while j < n
        invariant
            i <= j <= n,
            n == s@.len(),
            forall|k: int| i <= k < j ==> !p(s@[k]),
            p == char_pred(c),
        decreases n - j,
    {
        if s.get_char(j) == c {
            proof {
                lemma_spec_find_stops(s@, i as int, j as int, p);
            }
            return j;
        }
        j = j + 1;
    }
    proof {
        lemma_spec_find_stops(s@, i as int, n as int, p);
    }
    n
}

/// A position `j` with no match before it and a match (or the end) at it is
/// exactly what `spec_find` returns.
pub proof fn lemma_spec_find_stops(s: Seq<char>, i: int, j: int, p: spec_fn(char) -> bool)
    requires
        0 <= i <= j <= s.len(),
        forall|k: int| i <= k < j ==> !p(s[k]),
        j < s.len() ==> p(s[j]),
    ensures
        spec_find(s, i, p) == j,
    decreases j - i,
{
    if i < j {
        lemma_spec_find_stops(s, i + 1, j, p);
    }
}

/// Whether `c` occurs in `s`.
pub open spec fn spec_contains_char(s: Seq<char>, c: char) -> bool {
    exists|i: int| 0 <= i < s.len() && s[i] == c
}

/// Decides `spec_contains_char` by scanning.
pub fn contains_char(s: &str, c: char) -> (r: bool)
    ensures
        r == spec_contains_char(s@, c),
{
    let ghost p = char_pred(c);
    let n = s.unicode_len();
    let e = find_char(s, 0, c);
    proof {
        lemma_spec_find(s@, 0, p);
    }
    e < n
}

/// `s` with every occurrence of `from` replaced by the sequence `to`.
pub open spec fn spec_replace_char(s: Seq<char>, from: char, to: Seq<char>) -> Seq<char>
    decreases s.len(),
{
    if s.len() == 0 {
        Seq::empty()
    } else {
        (if s[0] == from {
            to
        } else {
            seq![s[0]]
        }) + spec_replace_char(s.skip(1), from, to)
    }
}

/// Replacement distributes over concatenation.
pub proof fn lemma_replace_char_concat(a: Seq<char>, b: Seq<char>, from: char, to: Seq<char>)
    ensures
        spec_replace_char(a + b, from, to) == spec_replace_char(a, from, to) + spec_replace_char(
            b,
            from,
            to,
        ),
    decreases a.len(),
{
    if a.len() == 0 {
        assert(a + b =~= b);
        assert(spec_replace_char(a, from, to) + spec_replace_char(b, from, to) =~= spec_replace_char(
            b,
            from,
            to,
        ));
    } else {
        lemma_replace_char_concat(a.skip(1), b, from, to);
        assert((a + b).skip(1) =~= a.skip(1) + b);
        assert(spec_replace_char(a + b, from, to) =~= spec_replace_char(a, from, to)
            + spec_replace_char(b, from, to));
    }
}

/// Replaces every occurrence of the character `from` in `s` by the string
/// `to`; used for path mangling and for escaping option strings.
pub fn replace_char(s: &str, from: char, to: &str) -> (r: String)
    ensures
        r@ == spec_replace_char(s@, from, to@),
{
    let n = s.unicode_len();
    let mut out = String::new();
    let mut i: usize = 0;
    while i < n
        invariant
            i <= n,
            n == s@.len(),
            out@ == spec_replace_char(s@.take(i as int), from, to@),
        decreases n - i,
    {
        let c = s.get_char(i);
        if c == from {
            out.append(to);
        } else {
            out.append(s.substring_char(i, i + 1));
        }
        proof {
            let piece = s@.subrange(i as int, i + 1);
            assert(spec_replace_char(piece.skip(1), from, to@) =~= Seq::empty());
            assert(spec_replace_char(piece, from, to@) =~= (if s@[i as int] == from {
                to@
            } else {
                seq![s@[i as int]]
            }));
            lemma_replace_char_concat(s@.take(i as int), piece, from, to@);
            assert(s@.take(i as int) + piece =~= s@.take(i + 1));
        }
        i = i + 1;
    }
    proof {
        assert(s@.take(n as int) =~= s@);
    }
    out
}

/// The digit character of `d` (for `0 <= d <= 9`).
pub open spec fn spec_digit(d: int) -> char {
    if d == 0 {
        '0'
    } else if d == 1 {
        '1'
    } else if d == 2 {
        '2'
    } else if d == 3 {
        '3'
    } else if d == 4 {
        '4'
    } else if d == 5 {
        '5'
    } else if d == 6 {
        '6'
    } else if d == 7 {
        '7'
    } else if d == 8 {
        '8'
    } else {
        '9'
    }
}

/// The decimal rendering of `n`, most significant digit first, no sign and no
/// leading zero (a single `'0'` for zero).
pub open spec fn spec_decimal(n: int) -> Seq<char>
    decreases n when n >= 0
{
    if n < 10 {
        seq![spec_digit(n)]
    } else {
        spec_decimal(n / 10) + seq![spec_digit(n % 10)]
    }
}

/// A decimal rendering is never empty.
pub proof fn lemma_decimal_len_pos(n: int)
    requires
        n >= 0,
    ensures
        spec_decimal(n).len() >= 1,
    decreases n,
{
    if n >= 10 {
        lemma_decimal_len_pos(n / 10);
    }
}

/// Different numbers render differently.
pub proof fn lemma_decimal_injective(m: int, n: int)
    requires
        m >= 0,
        n >= 0,
        spec_decimal(m) == spec_decimal(n),
    ensures
        m == n,
    decreases m,
{
    if m < 10 && n < 10 {
        assert(spec_decimal(m)[0] == spec_digit(m));
        assert(spec_decimal(n)[0] == spec_digit(n));
    } else if m < 10 {
        lemma_decimal_len_pos(n / 10);
        assert(spec_decimal(n).len() >= 2);
    } else if n < 10 {
        lemma_decimal_len_pos(m / 10);
        assert(spec_decimal(m).len() >= 2);
    } else {
        let dm = spec_decimal(m);
        let lm = dm.len() as int;
        assert(dm[lm - 1] == spec_digit(m % 10));
        assert(dm[lm - 1] == spec_digit(n % 10));
        assert(m % 10 == n % 10);
        assert(spec_decimal(m / 10) =~= dm.take(lm - 1));
        assert(spec_decimal(n / 10) =~= dm.take(lm - 1));
        lemma_decimal_injective(m / 10, n / 10);
    }
}

/// The one-character string of the digit `d`.
fn digit_str(d: u64) -> (r: &'static str)
    requires
        d < 10,
    ensures
        r@ == seq![spec_digit(d as int)],
{
    proof {
        reveal_strlit("0");
        reveal_strlit("1");
        reveal_strlit("2");
        reveal_strlit("3");
        reveal_strlit("4");
        reveal_strlit("5");
        reveal_strlit("6");
        reveal_strlit("7");
        reveal_strlit("8");
        reveal_strlit("9");
    }
    let r = if d == 0 {
        "0"
    } else if d == 1 {
        "1"
    } else if d == 2 {
        "2"
    } else if d == 3 {
        "3"
    } else if d == 4 {
        "4"
    } else if d == 5 {
        "5"
    } else if d == 6 {
        "6"
    } else if d == 7 {
        "7"
    } else if d == 8 {
        "8"
    } else {
        "9"
    };
    proof {
        assert(r@ =~= seq![spec_digit(d as int)]);
    }
    r
}

/// `l` without one trailing carriage return, if it has one.
pub open spec fn spec_strip_cr(l: Seq<char>) -> Seq<char> {
    if l.len() > 0 && l[l.len() - 1] == '\r' {
        l.take(l.len() - 1)
    } else {
        l
    }
}

/// The lines of `s`: maximal runs between newline characters, each without a
/// trailing carriage return.  A final newline ends the last line rather than
/// opening an empty one.
pub open spec fn spec_split_lines(s: Seq<char>) -> Seq<Seq<char>>
    decreases s.len(),
{
    if s.len() == 0 {
        Seq::empty()
    } else {
        let e = spec_find(s, 0, char_pred('\n'));
        proof {
            lemma_spec_find(s, 0, char_pred('\n'));
        }
        if e == s.len() {
            seq![spec_strip_cr(s)]
        } else {
            seq![spec_strip_cr(s.take(e))] + spec_split_lines(s.skip(e + 1))
        }
    }
}

/// Splits `s` into lines, matching `spec_split_lines`.
pub fn split_lines(s: &str) -> (r: Vec<String>)
    ensures
        r.deep_view() == spec_split_lines(s@),
{
    let n = s.unicode_len();
    let mut out: Vec<String> = Vec::new();
    let mut i: usize = 0;
    proof {
        assert(s@.skip(0) =~= s@);
        assert(out.deep_view() =~= Seq::<Seq<char>>::empty());
        assert(out.deep_view() + spec_split_lines(s@) =~= spec_split_lines(s@));
    }
    while i < n
        invariant
            i <= n,
            n == s@.len(),
            out.deep_view() + spec_split_lines(s@.skip(i as int)) == spec_split_lines(s@),
        decreases n - i,
    {
        let ghost pre = out.deep_view();
        let ghost rest = s@.skip(i as int);
        let e = find_char(s, i, '\n');
        proof {
            lemma_spec_find(s@, i as int, char_pred('\n'));
            assert forall|k: int| 0 <= k < e - i implies !(char_pred('\n')(rest[k])) by {
                assert(rest[k] == s@[i + k]);
                assert(!(char_pred('\n')(s@[i + k])));
            }
            if e < n {
                assert(rest[e - i] == s@[e as int]);
            }
            lemma_spec_find_stops(rest, 0, e - i, char_pred('\n'));
        }
        let line_end = if e > i && s.get_char(e - 1) == '\r' {
            e - 1
        } else {
            e
        };
        let line = String::from_str(s.substring_char(i, line_end));
        out.push(line);
        proof {
            assert(out.deep_view() =~= pre + seq![line@]);
            if e == n {
                assert(rest.len() > 0 && rest[rest.len() - 1] == s@[n - 1]);
                if s@[n - 1] == '\r' {
                    assert(rest.take(rest.len() - 1) =~= s@.subrange(i as int, n - 1));
                }
                assert(line@ =~= spec_strip_cr(rest));
                assert(spec_split_lines(rest) =~= seq![line@]);
                assert(s@.skip(n as int) =~= Seq::<char>::empty());
                assert(spec_split_lines(s@.skip(n as int)) =~= Seq::<Seq<char>>::empty());
                assert(out.deep_view() + spec_split_lines(s@.skip(n as int)) =~= spec_split_lines(
                    s@,
                ));
            } else {
                let cut = rest.take(e - i);
                assert(cut =~= s@.subrange(i as int, e as int));
                if e > i && s@[e - 1] == '\r' {
                    assert(cut.len() > 0 && cut[cut.len() - 1] == s@[e - 1]);
                    assert(cut.take(cut.len() - 1) =~= s@.subrange(i as int, e - 1));
                }
                assert(line@ =~= spec_strip_cr(cut));
                assert(spec_split_lines(rest) == seq![spec_strip_cr(cut)] + spec_split_lines(
                    rest.skip(e - i + 1),
                ));
                assert(rest.skip(e - i + 1) =~= s@.skip(e + 1));
                assert(out.deep_view() + spec_split_lines(s@.skip(e + 1)) =~= spec_split_lines(s@));
            }
        }
        if e == n {
            i = n;
        } else {
            i = e + 1;
        }
    }
    proof {
        assert(s@.skip(n as int) =~= Seq::<char>::empty());
        assert(spec_split_lines(s@.skip(n as int)) =~= Seq::<Seq<char>>::empty());
        assert(out.deep_view() =~= spec_split_lines(s@));
    }
    out
}

/// Renders `n` in decimal, matching `spec_decimal`.
pub fn decimal_string(n: u64) -> (r: String)
    ensures
        r@ == spec_decimal(n as int),
    decreases n,
{
    if n < 10 {
        String::from_str(digit_str(n))
    } else {
        let mut s = decimal_string(n / 10);
        s.append(digit_str(n % 10));
        s
    }
}

} // verus!
