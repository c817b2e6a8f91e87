//! Scanner primitives: character lookup and literal/prefix matching over a
//! line span.  Matching never advances the caller's range.

use vstd::prelude::*;
use crate::document::{lines_view, range_len, range_wf, spec_consume, InlineRange};

verus! {

/// The next character of the span, if the span is not exhausted.
pub open spec fn spec_pick_char(s: Seq<Seq<char>>, r: InlineRange) -> Option<char> {
    if range_len(r) > 0 {
        Some(s[r.line as int][r.start_column as int])
    } else {
        None
    }
}

/// The characters of `pat` appear at the front of the span `r`.
pub open spec fn spec_starts_with(s: Seq<Seq<char>>, pat: Seq<char>, r: InlineRange) -> bool {
    &&& pat.len() <= range_len(r)
    &&& forall|i: int|
        0 <= i < pat.len() ==> s[r.line as int][r.start_column + i] == #[trigger] pat[i]
}

/// The span `r` consists of exactly the characters of `pat`.
pub open spec fn spec_match(s: Seq<Seq<char>>, pat: Seq<char>, r: InlineRange) -> bool {
    spec_starts_with(s, pat, r) && pat.len() == range_len(r)
}

/// The first column at or after the start of `r` that holds character `c`,
/// if any column of the span does.
pub open spec fn spec_find(s: Seq<Seq<char>>, r: InlineRange, c: char) -> Option<int>
    decreases range_len(r),
{
    if range_len(r) <= 0 {
        None
    } else if s[r.line as int][r.start_column as int] == c {
        Some(r.start_column as int)
    } else {
        spec_find(s, spec_consume(r, 1), c)
    }
}

pub proof fn lemma_spec_find_bounds(s: Seq<Seq<char>>, r: InlineRange, c: char)
    ensures
        spec_find(s, r, c) matches Some(j) ==> r.start_column <= j < r.end_column
            && s[r.line as int][j] == c,
    decreases range_len(r),
{
    if range_len(r) > 0 && s[r.line as int][r.start_column as int] != c {
        lemma_spec_find_bounds(s, spec_consume(r, 1), c);
    }
}

/// Number of consecutive occurrences of `c` at the front of the span.
pub open spec fn spec_count_prefix_char(s: Seq<Seq<char>>, r: InlineRange, c: char) -> int
    decreases range_len(r),
{
    if range_len(r) <= 0 {
        0
    } else if s[r.line as int][r.start_column as int] == c {
        1 + spec_count_prefix_char(s, spec_consume(r, 1), c)
    } else {
        0
    }
}


/// Character lookup at the current position of the span.
pub fn pick_char(src: &Vec<Vec<char>>, range: &InlineRange) -> (c: Option<char>)
    requires
        range_wf(lines_view(src), *range),
    ensures
        c == spec_pick_char(lines_view(src), *range),
{
    if range.start_column < range.end_column {
        Some(src[range.line][range.start_column])
    } else {
        None
    }
}

/// The next character of the span is `expected`.
pub fn check_at(src: &Vec<Vec<char>>, expected: char, range: &InlineRange) -> (b: bool)
    requires
        range_wf(lines_view(src), *range),
    ensures
        b == (spec_pick_char(lines_view(src), *range) == Some(expected)),
{
    match pick_char(src, range) {
        Some(actual) => expected == actual,
        None => false,
    }
}

/// The span begins with the literal `expected`; the caller's range is not
/// advanced.
pub fn starts_with(src: &Vec<Vec<char>>, expected: &str, range: &InlineRange) -> (b: bool)
    requires
        range_wf(lines_view(src), *range),
    ensures
        b == spec_starts_with(lines_view(src), expected@, *range),
{
    let ghost s = lines_view(src);
    let n: usize = expected.unicode_len();
    if n > range.end_column - range.start_column {
        return false;
    }
    for i in 0..n
        invariant
            s == lines_view(src),
            range_wf(s, *range),
            n == expected@.len(),
            n <= range_len(*range),
            forall|j: int|
                0 <= j < i ==> s[range.line as int][range.start_column + j] == #[trigger] expected@[j],
    {
        let c: char = expected.get_char(i);
        if src[range.line][range.start_column + i] != c {
            return false;
        }
    }
    true
}

/// The span is exactly the literal `expected`, nothing more.
pub fn match_(src: &Vec<Vec<char>>, expected: &str, range: &InlineRange) -> (b: bool)
    requires
        range_wf(lines_view(src), *range),
    ensures
        b == spec_match(lines_view(src), expected@, *range),
{
    let n: usize = expected.unicode_len();
    n == range.end_column - range.start_column && starts_with(src, expected, range)
}

} // verus!
