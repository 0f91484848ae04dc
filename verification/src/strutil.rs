//! Verified text building blocks shared by the log parsers: substring
//! search, `split`-style segmentation, whitespace tokens, and line
//! splitting.

use vstd::prelude::*;

verus! {

/// True when `pat` occurs in `s` starting at position `i`.
pub open spec fn match_at(s: Seq<char>, pat: Seq<char>, i: int) -> bool {
    0 <= i && i + pat.len() <= s.len() && s.subrange(i, i + pat.len() as int) == pat
}

/// Position of the first occurrence of `pat` in `s` at or after `from`.
pub open spec fn first_match_from(s: Seq<char>, pat: Seq<char>, from: int) -> Option<int>
    recommends
        0 <= from,
    decreases s.len() - from,
{
    if from < 0 || from + pat.len() > s.len() {
        None
    } else if pat.len() == 0 || s.subrange(from, from + pat.len() as int) == pat {
        Some(from)
    } else {
        first_match_from(s, pat, from + 1)
    }
}

/// Whether `pat` occurs anywhere in `s`.
pub open spec fn str_has(s: Seq<char>, pat: Seq<char>) -> bool {
    first_match_from(s, pat, 0) is Some
}

pub proof fn lemma_first_match_some(s: Seq<char>, pat: Seq<char>, from: int, i: int)
    requires
        0 <= from,
        first_match_from(s, pat, from) == Some(i),
    ensures
        from <= i,
        match_at(s, pat, i),
        forall|j: int| from <= j < i ==> !match_at(s, pat, j),
    decreases s.len() - from,
{
    if from + pat.len() > s.len() {
    } else if pat.len() == 0 || s.subrange(from, from + pat.len() as int) == pat {
        assert(pat.len() == 0 ==> s.subrange(from, from + pat.len() as int) =~= pat);
    } else {
        lemma_first_match_some(s, pat, from + 1, i);
    }
}

/// Compares two string slices character by character.
pub fn str_eq(a: &str, b: &str) -> (r: bool)
    ensures
        r == (a@ == b@),
{
    let n = a.unicode_len();
    if n != b.unicode_len() {
        return false;
    }
    let mut i: usize = 0;
    while i < n
        invariant
            n == a@.len(),
            n == b@.len(),
            i <= n,
            forall|k: int| 0 <= k < i ==> a@[k] == b@[k],
        decreases n - i,
    {
        if a.get_char(i) != b.get_char(i) {
            return false;
        }
        i += 1;
    }
    proof {
        assert(a@ =~= b@);
    }
    true
}

/// Whether `pat` occurs in `s` starting exactly at position `i`.
fn match_at_exec(s: &str, pat: &str, i: usize) -> (b: bool)
    requires
        i + pat@.len() <= s@.len(),
        s@.len() <= usize::MAX,
    ensures
        b == match_at(s@, pat@, i as int),
{
    let m = pat.unicode_len();
    let mut j: usize = 0;
    while j < m
        invariant
            m == pat@.len(),
            i + m <= s@.len(),
            s@.len() <= usize::MAX,
            j <= m,
            forall|k: int| 0 <= k < j ==> s@[i + k] == pat@[k],
        decreases m - j,
    {
        if s.get_char(i + j) != pat.get_char(j) {
            proof {
                assert(s@.subrange(i as int, i + m) != pat@) by {
                    assert(s@.subrange(i as int, i + m)[j as int] == s@[i + j]);
                }
            }
            return false;
        }
        j += 1;
    }
    proof {
        assert(s@.subrange(i as int, i + m) =~= pat@);
    }
    true
}

/// Position of the first occurrence of `pat` in `s`, scanning left to right.
pub fn find_sub(s: &str, pat: &str) -> (r: Option<usize>)
    ensures
        match r {
            Some(i) => first_match_from(s@, pat@, 0) == Some(i as int),
            None => first_match_from(s@, pat@, 0) is None,
        },
{
    let n = s.unicode_len();
    let m = pat.unicode_len();
    if m > n {
        return None;
    }
    if m == 0 {
        return Some(0);
    }
    let mut i: usize = 0;
    while i <= n - m
        invariant
            n == s@.len(),
            m == pat@.len(),
            1 <= m <= n,
            i <= n - m + 1,
            first_match_from(s@, pat@, 0) == first_match_from(s@, pat@, i as int),
        decreases n - m - i + 1,
    {
        if match_at_exec(s, pat, i) {
            return Some(i);
        }
        proof {
            assert(first_match_from(s@, pat@, i as int) == first_match_from(s@, pat@, i + 1));
        }
        i += 1;
    }
    None
}

/// Whether `pat` occurs anywhere in `s`.
pub fn contains_sub(s: &str, pat: &str) -> (r: bool)
    ensures
        r == str_has(s@, pat@),
{
    match find_sub(s, pat) {
        Some(_) => true,
        None => false,
    }
}

/// The text after the first occurrence of `pat`, truncated at the next
/// occurrence of `pat`, exactly as `split(pat).nth(1)` would yield it;
/// `None` when `pat` does not occur at all.
pub open spec fn spec_segment_after(s: Seq<char>, pat: Seq<char>) -> Option<Seq<char>> {
    match first_match_from(s, pat, 0) {
        None => None,
        Some(i) => {
            let rest = s.skip(i + pat.len() as int);
            match first_match_from(rest, pat, 0) {
                None => Some(rest),
                Some(j) => Some(rest.take(j)),
            }
        }
    }
}

/// The segment between the first and second occurrences of `pat`.
pub fn segment_after<'a>(s: &'a str, pat: &str) -> (r: Option<&'a str>)
    ensures
        match r {
            Some(t) => spec_segment_after(s@, pat@) == Some(t@),
            None => spec_segment_after(s@, pat@) is None,
        },
{
    let n = s.unicode_len();
    match find_sub(s, pat) {
        None => None,
        Some(i) => {
            proof {
                lemma_first_match_some(s@, pat@, 0, i as int);
            }
            let start = i + pat.unicode_len();
            let rest = s.substring_char(start, n);
            proof {
                assert(rest@ =~= s@.skip(start as int));
            }
            match find_sub(rest, pat) {
                None => Some(rest),
                Some(j) => {
                    proof {
                        lemma_first_match_some(rest@, pat@, 0, j as int);
                        assert(rest@.subrange(0, j as int) =~= rest@.take(j as int));
                    }
                    Some(rest.substring_char(0, j))
                }
            }
        }
    }
}

/// ASCII whitespace, on which the parsers split tokens.
pub open spec fn is_space_char(c: char) -> bool {
    c == ' ' || c == '\t' || c == '\r' || c == '\n'
}

fn is_space(c: char) -> (b: bool)
    ensures
        b == is_space_char(c),
{
    c == ' ' || c == '\t' || c == '\r' || c == '\n'
}

/// `s` with its leading whitespace removed.
pub open spec fn spec_skip_spaces(s: Seq<char>) -> Seq<char>
    decreases s.len(),
{
    if s.len() == 0 {
        s
    } else if is_space_char(s.first()) {
        spec_skip_spaces(s.drop_first())
    } else {
        s
    }
}

/// The run of non-whitespace characters at the front of `s`.
pub open spec fn spec_token_prefix(s: Seq<char>) -> Seq<char>
    decreases s.len(),
{
    if s.len() == 0 || is_space_char(s.first()) {
        Seq::empty()
    } else {
        seq![s.first()] + spec_token_prefix(s.drop_first())
    }
}

/// The first whitespace-separated token of `s`, as
/// `split_whitespace().next()` yields it.
pub open spec fn spec_first_token(s: Seq<char>) -> Option<Seq<char>> {
    let t = spec_token_prefix(spec_skip_spaces(s));
    if t.len() == 0 {
        None
    } else {
        Some(t)
    }
}

/// The first whitespace-separated token of `s`.
pub fn first_token<'a>(s: &'a str) -> (r: Option<&'a str>)
    ensures
        match r {
            Some(t) => spec_first_token(s@) == Some(t@),
            None => spec_first_token(s@) is None,
        },
{
    let n = s.unicode_len();
    let mut a: usize = 0;
    proof {
        assert(s@.skip(0) =~= s@);
    }
    while a < n && is_space(s.get_char(a))
        invariant
            n == s@.len(),
            a <= n,
            spec_skip_spaces(s@) == spec_skip_spaces(s@.skip(a as int)),
        decreases n - a,
    {
        proof {
            assert(s@.skip(a as int).drop_first() =~= s@.skip(a + 1));
        }
        a += 1;
    }
    proof {
        assert(spec_skip_spaces(s@.skip(a as int)) == s@.skip(a as int));
        assert(s@.subrange(a as int, a as int) + spec_token_prefix(s@.skip(a as int))
            =~= spec_token_prefix(s@.skip(a as int)));
    }
    let mut b: usize = a;
    while b < n && !is_space(s.get_char(b))
        invariant
            n == s@.len(),
            a <= b <= n,
            spec_skip_spaces(s@) == s@.skip(a as int),
            spec_token_prefix(s@.skip(a as int))
                == s@.subrange(a as int, b as int) + spec_token_prefix(s@.skip(b as int)),
        decreases n - b,
    {
        proof {
            assert(s@.skip(b as int).drop_first() =~= s@.skip(b + 1));
            assert(s@.skip(b as int).first() == s@[b as int]);
            assert(s@.subrange(a as int, b as int) + (seq![s@[b as int]] + spec_token_prefix(
                s@.skip(b + 1),
            )) =~= s@.subrange(a as int, b + 1) + spec_token_prefix(s@.skip(b + 1)));
        }
        b += 1;
    }
    proof {
        assert(spec_token_prefix(s@.skip(b as int)) =~= Seq::<char>::empty());
        assert(spec_token_prefix(s@.skip(a as int)) =~= s@.subrange(a as int, b as int));
    }
    if b == a {
        None
    } else {
        Some(s.substring_char(a, b))
    }
}

/// `line` with one trailing carriage return removed.
pub open spec fn spec_strip_cr(line: Seq<char>) -> Seq<char> {
    if line.len() > 0 && line.last() == '\r' {
        line.drop_last()
    } else {
        line
    }
}

fn strip_cr(line: &str) -> (r: String)
    ensures
        r@ == spec_strip_cr(line@),
{
    let n = line.unicode_len();
    if n > 0 && line.get_char(n - 1) == '\r' {
        let t = line.substring_char(0, n - 1);
        proof {
            assert(t@ =~= line@.drop_last());
        }
        t.to_owned()
    } else {
        line.to_owned()
    }
}

/// The views of a vector of owned lines.
pub open spec fn line_views(lines: Seq<String>) -> Seq<Seq<char>> {
    lines.map_values(|l: String| l@)
}

/// The lines of `s`, split at newlines, each stripped of one trailing
/// carriage return; a trailing newline closes the last line rather than
/// opening an empty one.
pub open spec fn spec_lines(s: Seq<char>) -> Seq<Seq<char>>
    decreases s.len(),
{
    if s.len() == 0 {
        Seq::empty()
    } else {
        match first_match_from(s, seq!['\n'], 0) {
            None => seq![spec_strip_cr(s)],
            Some(i) => if 0 <= i < s.len() {
                seq![spec_strip_cr(s.take(i))] + spec_lines(s.skip(i + 1))
            } else {
                // a match always lies within the string
                Seq::empty()
            },
        }
    }
}

/// Splits `s` into its lines.
pub fn split_lines(s: &str) -> (lines: Vec<String>)
    ensures
        line_views(lines@) == spec_lines(s@),
{
    let mut out: Vec<String> = Vec::new();
    let mut rest: &str = s;
    proof {
        assert(line_views(out@) + spec_lines(rest@) =~= spec_lines(s@));
    }
    while rest.unicode_len() > 0
        invariant
            line_views(out@) + spec_lines(rest@) == spec_lines(s@),
        decreases rest@.len(),
    {
        let n = rest.unicode_len();
        let ghost prev = rest@;
        let ghost prev_out = out@;
        match find_sub(rest, "\n") {
            Some(i) => {
                proof {
                    reveal_strlit("\n");
                    assert(("\n")@ =~= seq!['\n']);
                    lemma_first_match_some(prev, seq!['\n'], 0, i as int);
                }
                let head = rest.substring_char(0, i);
                proof {
                    assert(head@ =~= prev.take(i as int));
                }
                let line = strip_cr(head);
                out.push(line);
                rest = rest.substring_char(i + 1, n);
                proof {
                    assert(rest@ =~= prev.skip(i + 1));
                    assert(spec_lines(prev) == seq![spec_strip_cr(prev.take(i as int))]
                        + spec_lines(prev.skip(i + 1)));
                    assert(line_views(out@) =~= line_views(prev_out).push(
                        spec_strip_cr(prev.take(i as int)),
                    ));
                    assert(line_views(out@) + spec_lines(rest@) =~= line_views(prev_out)
                        + spec_lines(prev));
                }
            },
            None => {
                let line = strip_cr(rest);
                out.push(line);
                rest = rest.substring_char(n, n);
                proof {
                    reveal_strlit("\n");
                    assert(("\n")@ =~= seq!['\n']);
                    assert(spec_lines(prev) == seq![spec_strip_cr(prev)]);
                    assert(rest@ =~= Seq::<char>::empty());
                    assert(line_views(out@) =~= line_views(prev_out).push(spec_strip_cr(prev)));
                    assert(line_views(out@) + spec_lines(rest@) =~= line_views(prev_out)
                        + spec_lines(prev));
                }
            },
        }
    }
    proof {
        assert(line_views(out@) + spec_lines(rest@) =~= line_views(out@));
    }
    out
}

} // verus!
