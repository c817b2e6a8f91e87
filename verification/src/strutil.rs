//! Building the advisory `line:column: description` texts, and extracting
//! the verbatim text a range denotes.

use vstd::prelude::*;
use vstd::string::StringExecFns;
use crate::document::{
    block_wf, lines_view, range_wf, spec_verbatim_block, spec_verbatim_inline, BlockRange,
    InlineRange,
};

verus! {

/// Relies on `String::push`: appends the given character to the end of the
/// string.
#[verifier::external_body]
pub fn push_char(s: &mut String, c: char)
    ensures
        final(s)@ == old(s)@.push(c),
{
    s.push(c)
}

/// The decimal digit characters of `n`, most significant first.
pub open spec fn spec_decimal(n: int) -> Seq<char>
    decreases n,
{
    if n < 10 {
        seq![spec_digit_char(n)]
    } else {
        spec_decimal(n / 10).push(spec_digit_char(n % 10))
    }
}

pub open spec fn spec_digit_char(d: int) -> char {
    if d == 0 {
        '0'
    } else if d == 1 {
        '1'
    } else if d == 2 {
        '2'
    } else if d == 3 {
        '3'
    } else if d == 4 {
        '4'
    } else if d == 5 {
        '5'
    } else if d == 6 {
        '6'
    } else if d == 7 {
        '7'
    } else if d == 8 {
        '8'
    } else {
        '9'
    }
}

fn digit_char(d: usize) -> (c: char)
    requires
        d < 10,
    ensures
        c == spec_digit_char(d as int),
{
    if d == 0 {
        '0'
    } else if d == 1 {
        '1'
    } else if d == 2 {
        '2'
    } else if d == 3 {
        '3'
    } else if d == 4 {
        '4'
    } else if d == 5 {
        '5'
    } else if d == 6 {
        '6'
    } else if d == 7 {
        '7'
    } else if d == 8 {
        '8'
    } else {
        '9'
    }
}

/// Append the decimal digits of `n` to `out`.
pub fn append_decimal(out: &mut String, n: usize)
    ensures
        final(out)@ == old(out)@ + spec_decimal(n as int),
    decreases n,
{
    if n < 10 {
        push_char(out, digit_char(n));
    } else {
        append_decimal(out, n / 10);
        push_char(out, digit_char(n % 10));
        assert(old(out)@ + spec_decimal(n as int) =~= (old(out)@ + spec_decimal(n as int / 10)).push(
            spec_digit_char(n as int % 10),
        ));
    }
}

/// The advisory message text `<line>:<column>: <description>`.
pub open spec fn spec_diag(line: int, column: int, description: Seq<char>) -> Seq<char> {
    spec_decimal(line) + ":"@ + spec_decimal(column) + ": "@ + description
}

/// Build the advisory message for position (`line`, `column`).
pub fn diag_at(line: usize, column: usize, description: &str) -> (out: String)
    ensures
        out@ == spec_diag(line as int, column as int, description@),
{
    let mut out: String = String::new();
    append_decimal(&mut out, line);
    out.append(":");
    append_decimal(&mut out, column);
    out.append(": ");
    out.append(description);
    assert(out@ =~= spec_diag(line as int, column as int, description@));
    out
}

/// The text a line span denotes, exactly as it stands in the source.
pub fn verbatim_inline_content(src: &Vec<Vec<char>>, range: &InlineRange) -> (out: String)
    requires
        range_wf(lines_view(src), *range),
    ensures
        out@ == spec_verbatim_inline(lines_view(src), *range),
{
    let ghost s = lines_view(src);
    let mut out: String = String::new();
    let mut col: usize = range.start_column;
    while col < range.end_column
        invariant
            s == lines_view(src),
            range_wf(s, *range),
            range.start_column <= col <= range.end_column,
            out@ =~= s[range.line as int].subrange(range.start_column as int, col as int),
        decreases range.end_column - col,
    {
        push_char(&mut out, src[range.line][col]);
        col = col + 1;
        assert(out@ =~= s[range.line as int].subrange(range.start_column as int, col as int));
    }
    assert(out@ =~= spec_verbatim_inline(s, *range));
    out
}

/// The text a block range denotes: its line spans joined by newlines, with no
/// other transformation.
pub fn verbatim_block_content(src: &Vec<Vec<char>>, range: &BlockRange) -> (out: String)
    requires
        block_wf(lines_view(src), range@),
    ensures
        out@ == spec_verbatim_block(lines_view(src), range@),
{
    let ghost s = lines_view(src);
    let mut out: String = String::new();
    let n: usize = range.len();
    let mut i: usize = 0;
    while i < n
        invariant
            s == lines_view(src),
            block_wf(s, range@),
            n == range@.len(),
            0 <= i <= n,
            out@ =~= spec_verbatim_block(s, range@.take(i as int)),
        decreases n - i,
    {
        if i > 0 {
            push_char(&mut out, '\n');
        }
        let piece: String = verbatim_inline_content(src, &range[i]);
        out.append(piece.as_str());
        i = i + 1;
        proof {
            lemma_verbatim_block_take_step(s, range@, i as int);
        }
        assert(out@ =~= spec_verbatim_block(s, range@.take(i as int)));
    }
    assert(range@.take(n as int) =~= range@);
    out
}

proof fn lemma_verbatim_block_take_step(s: Seq<Seq<char>>, b: Seq<InlineRange>, i: int)
    requires
        1 <= i <= b.len(),
    ensures
        i == 1 ==> spec_verbatim_block(s, b.take(1)) == spec_verbatim_inline(s, b[0]),
        i > 1 ==> spec_verbatim_block(s, b.take(i)) == spec_verbatim_block(s, b.take(i - 1))
            + seq!['\n'] + spec_verbatim_inline(s, b[i - 1]),
    decreases i,
{
    if i == 1 {
        assert(b.take(1).len() == 1);
        assert(b.take(1)[0] == b[0]);
    } else {
        lemma_verbatim_block_take_step(s, b.drop_first(), i - 1);
        assert(b.take(i).drop_first() =~= b.drop_first().take(i - 1));
        assert(b.take(i - 1).drop_first() =~= b.drop_first().take(i - 2));
        if i == 2 {
            assert(spec_verbatim_block(s, b.take(2)) == spec_verbatim_inline(s, b[0]) + seq!['\n']
                + spec_verbatim_block(s, b.take(2).drop_first()));
            assert(b.drop_first().take(1)[0] == b[1]);
            assert(spec_verbatim_block(s, b.drop_first().take(1)) == spec_verbatim_inline(
                s,
                b[1],
            ));
            assert(spec_verbatim_block(s, b.take(1)) == spec_verbatim_inline(s, b[0]));
        } else {
            assert(spec_verbatim_block(s, b.take(i)) == spec_verbatim_inline(s, b[0]) + seq!['\n']
                + spec_verbatim_block(s, b.drop_first().take(i - 1)));
            assert(spec_verbatim_block(s, b.take(i - 1)) == spec_verbatim_inline(s, b[0])
                + seq!['\n'] + spec_verbatim_block(s, b.drop_first().take(i - 2)));
            assert((spec_verbatim_inline(s, b[0]) + seq!['\n'] + (spec_verbatim_block(
                s,
                b.drop_first().take(i - 2),
            ) + seq!['\n'] + spec_verbatim_inline(s, b.drop_first()[i - 2]))) =~= ((
            spec_verbatim_inline(s, b[0]) + seq!['\n'] + spec_verbatim_block(
                s,
                b.drop_first().take(i - 2),
            )) + seq!['\n'] + spec_verbatim_inline(s, b[i - 1])));
        }
    }
}

} // verus!
