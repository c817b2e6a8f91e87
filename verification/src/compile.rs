//! Compiling a source text held in a `String`: split it into lines of
//! codepoints, then run the parsers over the whole input.

use vstd::prelude::*;
use vstd::string::StringExecFns;
use crate::block::{parse_block_elements, spec_lift_count};
use crate::document::{lines_view, src_block_range, InlineRange};
use crate::parse::{
    parse_document, spec_import_errors, spec_preamble_errors, strs_view, Error, Warning,
};

verus! {

/// The first newline of the sequence, if any.
pub open spec fn spec_find_nl(cs: Seq<char>) -> Option<int>
    decreases cs.len(),
{
    if cs.len() == 0 {
        None
    } else if cs[0] == '\n' {
        Some(0)
    } else {
        match spec_find_nl(cs.drop_first()) {
            Some(j) => Some(j + 1),
            None => None,
        }
    }
}

pub proof fn lemma_find_nl_bounds(cs: Seq<char>)
    ensures
        spec_find_nl(cs) matches Some(j) ==> 0 <= j < cs.len() && cs[j] == '\n' && (forall|i: int|
            0 <= i < j ==> cs[i] != '\n'),
        spec_find_nl(cs) is None ==> forall|i: int| 0 <= i < cs.len() ==> cs[i] != '\n',
    decreases cs.len(),
{
    if cs.len() > 0 && cs[0] != '\n' {
        lemma_find_nl_bounds(cs.drop_first());
        assert(forall|i: int| 1 <= i < cs.len() ==> cs[i] == cs.drop_first()[i - 1]);
        match spec_find_nl(cs.drop_first()) {
            Some(j) => {
                assert(spec_find_nl(cs) == Some(j + 1));
                assert(cs[j + 1] == cs.drop_first()[j]);
                assert(forall|i: int| 0 <= i < j + 1 ==> cs[i] != '\n') by {
                    assert(forall|i: int| 1 <= i < j + 1 ==> cs[i] == cs.drop_first()[i - 1]);
                }
            },
            None => {},
        }
    }
}

/// A line with a trailing carriage return removed.
pub open spec fn spec_strip_cr(h: Seq<char>) -> Seq<char> {
    if h.len() > 0 && h.last() == '\r' {
        h.drop_last()
    } else {
        h
    }
}

/// The lines of a character sequence: separated by `'\n'`, a `'\r'` before
/// the separator stripped, and no empty final line after a trailing
/// separator.
pub open spec fn spec_split_lines(cs: Seq<char>) -> Seq<Seq<char>>
    decreases cs.len() via spec_split_lines_dec
{
    if cs.len() == 0 {
        Seq::empty()
    } else {
        match spec_find_nl(cs) {
            None => seq![cs],
            Some(j) => seq![spec_strip_cr(cs.take(j))] + spec_split_lines(cs.skip(j + 1)),
        }
    }
}

#[via_fn]
proof fn spec_split_lines_dec(cs: Seq<char>) {
    lemma_find_nl_bounds(cs);
}

proof fn lemma_find_nl_prefix(h: Seq<char>, t: Seq<char>)
    requires
        forall|i: int| 0 <= i < h.len() ==> h[i] != '\n',
        t.len() > 0,
        t[0] == '\n',
    ensures
        spec_find_nl(h + t) == Some(h.len() as int),
    decreases h.len(),
{
    if h.len() == 0 {
        assert(h + t =~= t);
    } else {
        lemma_find_nl_prefix(h.drop_first(), t);
        assert((h + t).drop_first() =~= h.drop_first() + t);
        assert((h + t)[0] == h[0]);
    }
}

/// Splitting at the first newline: a newline-free prefix becomes one line.
proof fn lemma_split_lines_newline(h: Seq<char>, t: Seq<char>)
    requires
        forall|i: int| 0 <= i < h.len() ==> h[i] != '\n',
    ensures
        spec_split_lines(h + seq!['\n'] + t) =~= seq![spec_strip_cr(h)] + spec_split_lines(t),
{
    let cs = h + seq!['\n'] + t;
    assert(h + seq!['\n'] + t =~= h + (seq!['\n'] + t));
    lemma_find_nl_prefix(h, seq!['\n'] + t);
    assert(spec_find_nl(cs) == Some(h.len() as int));
    assert(cs.take(h.len() as int) =~= h);
    assert(cs.skip(h.len() as int + 1) =~= t);
}

/// The characters of a string, in order.
pub fn string_chars(s: &String) -> (v: Vec<char>)
    ensures
        v@ == s@,
{
    let n: usize = s.as_str().unicode_len();
    let mut v: Vec<char> = Vec::new();
    for i in 0..n
        invariant
            n == s@.len(),
            v@ =~= s@.take(i as int),
    {
        v.push(s.as_str().get_char(i));
        proof {
            assert(v@ =~= s@.take(i + 1));
        }
    }
    proof {
        assert(s@.take(n as int) =~= s@);
    }
    v
}

/// The view of a vector of lines of characters.
pub open spec fn vv_view(q: Seq<Vec<char>>) -> Seq<Seq<char>> {
    Seq::new(q.len(), |i: int| q[i]@)
}

/// Split a character sequence into its lines.
pub fn split_lines(chars: &Vec<char>) -> (lines: Vec<Vec<char>>)
    ensures
        lines_view(&lines) == spec_split_lines(chars@),
{
    let ghost cs = chars@;
    let n: usize = chars.len();
    let mut out: Vec<Vec<char>> = Vec::new();
    let mut cur: Vec<char> = Vec::new();
    let mut i: usize = 0;
    proof {
        assert(cur@ + cs.skip(0) =~= cs);
        assert(vv_view(out@) =~= Seq::<Seq<char>>::empty());
    }
    while i < n
        invariant
            n == cs.len(),
            cs == chars@,
            0 <= i <= n,
            forall|j: int| 0 <= j < cur@.len() ==> cur@[j] != '\n',
            vv_view(out@) + spec_split_lines(cur@ + cs.skip(i as int)) =~= spec_split_lines(cs),
        decreases n - i,
    {
        let c: char = chars[i];
        let ghost cur_old = cur@;
        let ghost out_old = out@;
        if c == '\n' {
            if cur.len() > 0 && cur[cur.len() - 1] == '\r' {
                let _ = cur.pop();
            }
            proof {
                assert(cur@ =~= spec_strip_cr(cur_old));
            }
            out.push(cur);
            cur = Vec::new();
            proof {
                lemma_split_lines_newline(cur_old, cs.skip(i + 1));
                assert(cur_old + cs.skip(i as int) =~= cur_old + seq!['\n'] + cs.skip(i + 1));
                assert(vv_view(out@) =~= vv_view(out_old).push(spec_strip_cr(cur_old)));
                assert(cur@ + cs.skip(i + 1) =~= cs.skip(i + 1));
                assert(vv_view(out@) + spec_split_lines(cs.skip(i + 1)) =~= (vv_view(out_old)
                    + spec_split_lines(cur_old + cs.skip(i as int))));
            }
        } else {
            cur.push(c);
            proof {
                assert(cur@ + cs.skip(i + 1) =~= cur_old + cs.skip(i as int));
            }
        }
        i = i + 1;
    }
    if cur.len() > 0 {
        let ghost cur_last = cur@;
        let ghost out_old = out@;
        out.push(cur);
        proof {
            assert(cur_last + cs.skip(n as int) =~= cur_last);
            lemma_find_nl_bounds(cur_last);
            assert(spec_find_nl(cur_last) is None);
            assert(spec_split_lines(cur_last) =~= seq![cur_last]);
            assert(vv_view(out@) =~= vv_view(out_old).push(cur_last));
            assert(vv_view(out@) =~= spec_split_lines(cs));
        }
    } else {
        proof {
            assert(cur@ + cs.skip(n as int) =~= Seq::<char>::empty());
            assert(spec_split_lines(Seq::<char>::empty()) =~= Seq::<Seq<char>>::empty());
            assert(vv_view(out@) =~= spec_split_lines(cs));
        }
    }
    proof {
        assert(lines_view(&out) =~= vv_view(out@));
    }
    out
}

/// The block range covering a whole source, one full-line span per line.
pub open spec fn spec_src_range(s: Seq<Seq<char>>) -> Seq<InlineRange> {
    Seq::new(
        s.len(),
        |i: int|
            InlineRange { line: i as usize, start_column: 0, end_column: s[i].len() as usize },
    )
}

/// Compile a source text: split it into lines and parse its block elements.
/// Block-level parsing is total and silent, so no errors or warnings come
/// back.
pub fn compile_src(src: String) -> (r: (Vec<Error>, Vec<Warning>))
    ensures
        r.0.len() == 0,
        r.1.len() == 0,
{
    let chars = string_chars(&src);
    let lines = split_lines(&chars);
    let src_range = src_block_range(&lines);
    let result = parse_block_elements(&lines, src_range);
    (result.errors, result.warnings)
}

/// Check a document source: parse it whole and hand back the advisory
/// errors and warnings.  All diagnostics come from the preamble and import
/// prologue, and they are exactly the ones the document model predicts.
pub fn check_bok_content(content: String) -> (r: (Vec<Error>, Vec<Warning>))
    ensures
        ({
            let lines = spec_split_lines(content@);
            let b = spec_src_range(lines);
            let n_pre = spec_lift_count(lines, "%"@, b);
            let after = b.skip(n_pre);
            let n_imp = spec_lift_count(lines, "import"@, after);
            &&& strs_view(r.0@) =~= spec_preamble_errors(lines, b.take(n_pre))
                + spec_import_errors(lines, after.take(n_imp))
            &&& r.1.len() == 0
        }),
{
    let chars = string_chars(&content);
    let lines = split_lines(&chars);
    let src_range = src_block_range(&lines);
    proof {
        assert(src_range@ =~= spec_src_range(lines_view(&lines)));
    }
    let result = parse_document(&lines, src_range);
    (result.errors, result.warnings)
}

} // verus!
