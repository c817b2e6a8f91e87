//! Document-level parsing: the leading preamble (key/value lines) and
//! import-statement prologue, then the block element dispatcher run to
//! exhaustion.

use vstd::prelude::*;
use vstd::string::StringExecFns;
use crate::block::{
    lemma_lift_count_from_prefix, parse_block_elements, spec_blocks_model, spec_lift_count,
};
use crate::model::bes_view;
use crate::document::{
    block_wf, lines_view, range_len, range_wf, spec_consume, BlockElement, BlockRange, Document,
    ImportPath, InlineRange,
};
use crate::scan::{spec_starts_with, starts_with};
use crate::strutil::{diag_at, push_char, spec_diag, verbatim_inline_content};

verus! {

/// An advisory error message, formatted as `line:column: description`.
pub type Error = String;

/// An advisory warning message.
pub type Warning = String;

/// The outcome of one parse call: the produced value, the advisory
/// side-channels, and the range of input that remains unconsumed.
pub struct ParseResult<V, R> {
    pub value: V,
    pub errors: Vec<Error>,
    pub warnings: Vec<Warning>,
    pub rest_range: R,
}

/// The character sequences of a sequence of strings.
pub open spec fn strs_view(v: Seq<String>) -> Seq<Seq<char>> {
    Seq::new(v.len(), |i: int| v[i]@)
}

/// ASCII whitespace, as the preamble and import grammar understand it.
pub open spec fn spec_is_ws(c: char) -> bool {
    c == ' ' || c == '\t' || c == '\n' || c == '\x0c' || c == '\r'
}

fn is_ws(c: char) -> (b: bool)
    ensures
        b == spec_is_ws(c),
{
    c == ' ' || c == '\t' || c == '\n' || c == '\x0c' || c == '\r'
}

/// A character allowed inside an imported path segment.
pub open spec fn spec_is_path_char(c: char) -> bool {
    ('a' <= c && c <= 'z') || ('A' <= c && c <= 'Z') || ('0' <= c && c <= '9') || c == '-'
        || c == '_'
}

fn is_path_char(c: char) -> (b: bool)
    ensures
        b == spec_is_path_char(c),
{
    ('a' <= c && c <= 'z') || ('A' <= c && c <= 'Z') || ('0' <= c && c <= '9') || c == '-'
        || c == '_'
}

/// The first column at or after the start of `r` whose character is not
/// ASCII whitespace, or the end of the span.
pub open spec fn spec_skip_ws(s: Seq<Seq<char>>, r: InlineRange) -> int
    decreases range_len(r),
{
    if range_len(r) <= 0 {
        r.start_column as int
    } else if !spec_is_ws(s[r.line as int][r.start_column as int]) {
        r.start_column as int
    } else {
        spec_skip_ws(s, spec_consume(r, 1))
    }
}


fn skip_ws(src: &Vec<Vec<char>>, range: &InlineRange) -> (col: usize)
    requires
        range_wf(lines_view(src), *range),
    ensures
        col as int == spec_skip_ws(lines_view(src), *range),
        range.start_column <= col <= range.end_column,
{
    let ghost s = lines_view(src);
    let mut cur: InlineRange = *range;
    while cur.start_column < cur.end_column && is_ws(src[cur.line][cur.start_column])
        invariant
            s == lines_view(src),
            range_wf(s, *range),
            range_wf(s, cur),
            cur.line == range.line,
            cur.end_column == range.end_column,
            range.start_column <= cur.start_column,
            spec_skip_ws(s, cur) == spec_skip_ws(s, *range),
        decreases cur.end_column - cur.start_column,
    {
        cur.move_to_next_char();
    }
    cur.start_column
}

/// What one preamble line yields: its key, its value, and the advisory
/// errors it produces.
pub struct PreambleOutcome {
    pub key: Seq<char>,
    pub value: Seq<char>,
    pub errors: Seq<Seq<char>>,
}

/// The model of one preamble line `%key value`: the line splits into key
/// and value at its first whitespace run — the key runs to the first
/// whitespace character, the value is everything after that whole run; a
/// line that ends before any whitespace has an empty value and reports an
/// error.
pub open spec fn spec_preamble_line(s: Seq<Seq<char>>, r: InlineRange) -> PreambleOutcome {
    let line = r.line as int;
    let after_mark = spec_consume(r, 1);
    let ws = spec_first_ws(s, after_mark);
    if ws < r.end_column {
        let value_start = spec_skip_ws(
            s,
            InlineRange { line: r.line, start_column: ws as usize, end_column: r.end_column },
        );
        PreambleOutcome {
            key: s[line].subrange(after_mark.start_column as int, ws),
            value: s[line].subrange(value_start, r.end_column as int),
            errors: Seq::empty(),
        }
    } else {
        PreambleOutcome {
            key: s[line].subrange(after_mark.start_column as int, r.end_column as int),
            value: Seq::empty(),
            errors: seq![spec_diag(line, r.end_column as int, "expected preamble value"@)],
        }
    }
}

/// The first column at or after the start of `r` whose character is ASCII
/// whitespace, or the end of the span.
pub open spec fn spec_first_ws(s: Seq<Seq<char>>, r: InlineRange) -> int
    decreases range_len(r),
{
    if range_len(r) <= 0 {
        r.start_column as int
    } else if spec_is_ws(s[r.line as int][r.start_column as int]) {
        r.start_column as int
    } else {
        spec_first_ws(s, spec_consume(r, 1))
    }
}


fn first_ws(src: &Vec<Vec<char>>, range: &InlineRange) -> (col: usize)
    requires
        range_wf(lines_view(src), *range),
    ensures
        col as int == spec_first_ws(lines_view(src), *range),
        range.start_column <= col <= range.end_column,
{
    let ghost s = lines_view(src);
    let mut cur: InlineRange = *range;
    while cur.start_column < cur.end_column && !is_ws(src[cur.line][cur.start_column])
        invariant
            s == lines_view(src),
            range_wf(s, *range),
            range_wf(s, cur),
            cur.line == range.line,
            cur.end_column == range.end_column,
            range.start_column <= cur.start_column,
            spec_first_ws(s, cur) == spec_first_ws(s, *range),
        decreases cur.end_column - cur.start_column,
    {
        cur.move_to_next_char();
    }
    cur.start_column
}

/// Parse one preamble line `%key value`.
pub fn parse_preamble(src: &Vec<Vec<char>>, inline_range: InlineRange) -> (r: ParseResult<
    (String, String),
    InlineRange,
>)
    requires
        range_wf(lines_view(src), inline_range),
        spec_starts_with(lines_view(src), "%"@, inline_range),
    ensures
        ({
            let o = spec_preamble_line(lines_view(src), inline_range);
            &&& r.value.0@ == o.key
            &&& r.value.1@ == o.value
            &&& strs_view(r.errors@) =~= o.errors
            &&& r.warnings.len() == 0
            &&& range_len(r.rest_range) == 0
        }),
{
    let ghost s = lines_view(src);
    proof {
        reveal_strlit("%");
    }
    let after_mark: InlineRange = inline_range.consume(1);
    let ws: usize = first_ws(src, &after_mark);
    let line_end: usize = inline_range.end_column;
    if ws < line_end {
        let key = verbatim_inline_content(
            src,
            &InlineRange {
                line: inline_range.line,
                start_column: after_mark.start_column,
                end_column: ws,
            },
        );
        let value_start: usize = skip_ws(
            src,
            &InlineRange { line: inline_range.line, start_column: ws, end_column: line_end },
        );
        let value = verbatim_inline_content(
            src,
            &InlineRange {
                line: inline_range.line,
                start_column: value_start,
                end_column: line_end,
            },
        );
        ParseResult {
            value: (key, value),
            errors: Vec::new(),
            warnings: Vec::new(),
            rest_range: InlineRange {
                line: inline_range.line,
                start_column: line_end,
                end_column: line_end,
            },
        }
    } else {
        let key = verbatim_inline_content(
            src,
            &InlineRange {
                line: inline_range.line,
                start_column: after_mark.start_column,
                end_column: line_end,
            },
        );
        let mut errors: Vec<String> = Vec::new();
        errors.push(diag_at(inline_range.line, line_end, "expected preamble value"));
        ParseResult {
            value: (key, String::new()),
            errors,
            warnings: Vec::new(),
            rest_range: InlineRange {
                line: inline_range.line,
                start_column: line_end,
                end_column: line_end,
            },
        }
    }
}

/// The outcome of scanning the quoted path of an import statement.
pub enum PathScan {
    Done { segments: Seq<Seq<char>>, next: int },
    Fail { at: int, msg: Seq<char> },
}

/// Scan the quoted path from column `i`: segments of alphanumerics, `-` and
/// `_`, split at `/` or `\`, closed by the quote.  Any other character, or
/// the end of the line, fails the scan.
pub open spec fn spec_scan_path(
    s: Seq<Seq<char>>,
    line: int,
    i: int,
    end: int,
    buf: Seq<char>,
    acc: Seq<Seq<char>>,
) -> PathScan
    decreases end - i,
{
    if i < 0 || i >= end {
        PathScan::Fail { at: end, msg: "expected single quote (')."@ }
    } else {
        let c = s[line][i];
        if c == '\'' {
            PathScan::Done { segments: acc.push(buf), next: i + 1 }
        } else if c == '/' || c == '\\' {
            spec_scan_path(s, line, i + 1, end, Seq::empty(), acc.push(buf))
        } else if spec_is_path_char(c) {
            spec_scan_path(s, line, i + 1, end, buf.push(c), acc)
        } else {
            PathScan::Fail {
                at: i,
                msg: "'"@ + seq![c] + "' is invalid character as imported path."@,
            }
        }
    }
}


/// What one import line yields: the path segments, the advisory errors, and
/// the range state where parsing stopped.
pub struct ImportOutcome {
    pub segments: Seq<Seq<char>>,
    pub errors: Seq<Seq<char>>,
    pub rest: InlineRange,
}

/// The model of one import line `import 'relative/path';` with tolerated
/// surrounding whitespace.  Each clause that is not found reports one error
/// naming the offending position; a bad path character resets the collected
/// segments.
pub open spec fn spec_import_line(s: Seq<Seq<char>>, r: InlineRange) -> ImportOutcome {
    let line = r.line as int;
    let end = r.end_column as int;
    let r0 = spec_consume(r, "import"@.len() as int);
    let p1 = spec_skip_ws(s, r0);
    if p1 >= end {
        ImportOutcome {
            segments: Seq::empty(),
            errors: seq![spec_diag(line, end, "expected single quote (')."@)],
            rest: InlineRange { line: r.line, start_column: end as usize, end_column: r.end_column },
        }
    } else if s[line][p1] != '\'' {
        ImportOutcome {
            segments: Seq::empty(),
            errors: seq![
                spec_diag(
                    line,
                    p1,
                    "expected single quote ('), but actual is '"@ + seq![s[line][p1]] + "'."@,
                ),
            ],
            rest: InlineRange { line: r.line, start_column: p1 as usize, end_column: r.end_column },
        }
    } else {
        match spec_scan_path(s, line, p1 + 1, end, Seq::empty(), Seq::empty()) {
            PathScan::Fail { at, msg } => ImportOutcome {
                segments: Seq::empty(),
                errors: seq![spec_diag(line, at, msg)],
                rest: InlineRange {
                    line: r.line,
                    start_column: at as usize,
                    end_column: r.end_column,
                },
            },
            PathScan::Done { segments, next } => {
                let p3 = spec_skip_ws(
                    s,
                    InlineRange {
                        line: r.line,
                        start_column: next as usize,
                        end_column: r.end_column,
                    },
                );
                if p3 >= end {
                    ImportOutcome {
                        segments,
                        errors: seq![spec_diag(line, end, "expected semicolon (';')."@)],
                        rest: InlineRange {
                            line: r.line,
                            start_column: end as usize,
                            end_column: r.end_column,
                        },
                    }
                } else if s[line][p3] != ';' {
                    ImportOutcome {
                        segments,
                        errors: seq![
                            spec_diag(
                                line,
                                p3,
                                "expected semicolon (';'), but actual is '"@ + seq![s[line][p3]]
                                    + "'."@,
                            ),
                        ],
                        rest: InlineRange {
                            line: r.line,
                            start_column: p3 as usize,
                            end_column: r.end_column,
                        },
                    }
                } else {
                    let p4 = spec_skip_ws(
                        s,
                        InlineRange {
                            line: r.line,
                            start_column: (p3 + 1) as usize,
                            end_column: r.end_column,
                        },
                    );
                    if p4 >= end {
                        ImportOutcome {
                            segments,
                            errors: Seq::empty(),
                            rest: InlineRange {
                                line: r.line,
                                start_column: end as usize,
                                end_column: r.end_column,
                            },
                        }
                    } else {
                        ImportOutcome {
                            segments,
                            errors: seq![
                                spec_diag(
                                    line,
                                    p4,
                                    "unexpected character '"@ + seq![s[line][p4]] + "'."@,
                                ),
                            ],
                            rest: InlineRange {
                                line: r.line,
                                start_column: p4 as usize,
                                end_column: r.end_column,
                            },
                        }
                    }
                }
            },
        }
    }
}

/// Parse one import line `import 'relative/path';`.
#[verifier::loop_isolation(false)]
pub fn parse_import(src: &Vec<Vec<char>>, inline_range: InlineRange) -> (r: ParseResult<
    ImportPath,
    InlineRange,
>)
    requires
        range_wf(lines_view(src), inline_range),
        spec_starts_with(lines_view(src), "import"@, inline_range),
    ensures
        ({
            let o = spec_import_line(lines_view(src), inline_range);
            &&& strs_view(r.value.segments@) =~= o.segments
            &&& strs_view(r.errors@) =~= o.errors
            &&& r.rest_range == o.rest
            &&& r.warnings.len() == 0
        }),
{
    let ghost s = lines_view(src);
    let ghost line_g = inline_range.line as int;
    let line_idx: usize = inline_range.line;
    let end: usize = inline_range.end_column;
    proof {
        reveal_strlit("import");
    }
    let r0: InlineRange = inline_range.consume(6);
    let p1: usize = skip_ws(src, &r0);
    if p1 >= end {
        let mut errors: Vec<String> = Vec::new();
        errors.push(diag_at(line_idx, end, "expected single quote (')."));
        return ParseResult {
            value: ImportPath { segments: Vec::new() },
            errors,
            warnings: Vec::new(),
            rest_range: InlineRange { line: line_idx, start_column: end, end_column: end },
        };
    }
    let c1: char = src[line_idx][p1];
    if c1 != '\'' {
        let mut msg: String = String::from_str("expected single quote ('), but actual is '");
        push_char(&mut msg, c1);
        msg.append("'.");
        proof {
            assert(msg@ =~= "expected single quote ('), but actual is '"@ + seq![c1] + "'."@);
        }
        let mut errors: Vec<String> = Vec::new();
        errors.push(diag_at(line_idx, p1, msg.as_str()));
        return ParseResult {
            value: ImportPath { segments: Vec::new() },
            errors,
            warnings: Vec::new(),
            rest_range: InlineRange { line: line_idx, start_column: p1, end_column: end },
        };
    }
    // Scan the quoted path.
    let mut col: usize = p1 + 1;
    let mut buf: String = String::new();
    let mut segments: Vec<String> = Vec::new();
    proof {
        assert(strs_view(segments@) =~= Seq::<Seq<char>>::empty());
    }
    let mut closed_at: usize = 0;
    let mut failed: bool = false;
    let mut fail_at: usize = 0;
    let mut fail_msg: String = String::new();
    let mut done: bool = false;
    while !done && col < end
        invariant
            p1 < col <= end,
            !done ==> !failed,
            !done ==> spec_scan_path(s, line_g, col as int, end as int, buf@, strs_view(segments@))
                == spec_scan_path(
                s,
                line_g,
                p1 + 1,
                end as int,
                Seq::empty(),
                Seq::empty(),
            ),
            done ==> !failed ==> spec_scan_path(
                s,
                line_g,
                p1 + 1,
                end as int,
                Seq::empty(),
                Seq::empty(),
            ) == (PathScan::Done { segments: strs_view(segments@), next: closed_at as int }),
            done ==> failed ==> spec_scan_path(
                s,
                line_g,
                p1 + 1,
                end as int,
                Seq::empty(),
                Seq::empty(),
            ) == (PathScan::Fail { at: fail_at as int, msg: fail_msg@ }),
            done ==> !failed ==> col < closed_at <= end,
            done ==> failed ==> fail_at <= end,
        decreases end - col + (if done { 0int } else { 1int }),
    {
        let ghost col_old = col as int;
        let ghost buf_old = buf@;
        let ghost segs_old = segments@;
        let c: char = src[line_idx][col];
        if c == '\'' {
            segments.push(buf);
            buf = String::new();
            closed_at = col + 1;
            done = true;
            proof {
                assert(strs_view(segments@) =~= strs_view(segs_old).push(buf_old));
                assert(spec_scan_path(s, line_g, col_old, end as int, buf_old, strs_view(segs_old))
                    == (PathScan::Done {
                    segments: strs_view(segs_old).push(buf_old),
                    next: col_old + 1,
                }));
            }
        } else if c == '/' || c == '\\' {
            segments.push(buf);
            buf = String::new();
            col = col + 1;
            proof {
                assert(strs_view(segments@) =~= strs_view(segs_old).push(buf_old));
                assert(spec_scan_path(s, line_g, col_old, end as int, buf_old, strs_view(segs_old))
                    == spec_scan_path(
                    s,
                    line_g,
                    col_old + 1,
                    end as int,
                    Seq::empty(),
                    strs_view(segs_old).push(buf_old),
                ));
                assert(buf@ =~= Seq::<char>::empty());
            }
        } else if is_path_char(c) {
            push_char(&mut buf, c);
            col = col + 1;
            proof {
                assert(spec_scan_path(s, line_g, col_old, end as int, buf_old, strs_view(segs_old))
                    == spec_scan_path(
                    s,
                    line_g,
                    col_old + 1,
                    end as int,
                    buf_old.push(c),
                    strs_view(segs_old),
                ));
            }
        } else {
            let mut msg: String = String::from_str("'");
            push_char(&mut msg, c);
            msg.append("' is invalid character as imported path.");
            fail_msg = msg;
            fail_at = col;
            failed = true;
            done = true;
            proof {
                assert(fail_msg@ =~= "'"@ + seq![c]
                    + "' is invalid character as imported path."@);
                assert(spec_scan_path(s, line_g, col_old, end as int, buf_old, strs_view(segs_old))
                    == (PathScan::Fail { at: col_old, msg: fail_msg@ }));
            }
        }
    }
    if !done {
        // The line ended before the closing quote.
        let mut errors: Vec<String> = Vec::new();
        errors.push(diag_at(line_idx, end, "expected single quote (')."));
        return ParseResult {
            value: ImportPath { segments: Vec::new() },
            errors,
            warnings: Vec::new(),
            rest_range: InlineRange { line: line_idx, start_column: end, end_column: end },
        };
    }
    if failed {
        let mut errors: Vec<String> = Vec::new();
        errors.push(diag_at(line_idx, fail_at, fail_msg.as_str()));
        return ParseResult {
            value: ImportPath { segments: Vec::new() },
            errors,
            warnings: Vec::new(),
            rest_range: InlineRange { line: line_idx, start_column: fail_at, end_column: end },
        };
    }
    // The semicolon.
    let after_quote = InlineRange { line: line_idx, start_column: closed_at, end_column: end };
    let p3: usize = skip_ws(src, &after_quote);
    if p3 >= end {
        let mut errors: Vec<String> = Vec::new();
        errors.push(diag_at(line_idx, end, "expected semicolon (';')."));
        return ParseResult {
            value: ImportPath { segments },
            errors,
            warnings: Vec::new(),
            rest_range: InlineRange { line: line_idx, start_column: end, end_column: end },
        };
    }
    let c3: char = src[line_idx][p3];
    if c3 != ';' {
        let mut msg: String = String::from_str("expected semicolon (';'), but actual is '");
        push_char(&mut msg, c3);
        msg.append("'.");
        proof {
            assert(msg@ =~= "expected semicolon (';'), but actual is '"@ + seq![c3] + "'."@);
        }
        let mut errors: Vec<String> = Vec::new();
        errors.push(diag_at(line_idx, p3, msg.as_str()));
        return ParseResult {
            value: ImportPath { segments },
            errors,
            warnings: Vec::new(),
            rest_range: InlineRange { line: line_idx, start_column: p3, end_column: end },
        };
    }
    // Only whitespace may remain.
    let after_semi = InlineRange { line: line_idx, start_column: p3 + 1, end_column: end };
    let p4: usize = skip_ws(src, &after_semi);
    if p4 >= end {
        ParseResult {
            value: ImportPath { segments },
            errors: Vec::new(),
            warnings: Vec::new(),
            rest_range: InlineRange { line: line_idx, start_column: end, end_column: end },
        }
    } else {
        let c4: char = src[line_idx][p4];
        let mut msg: String = String::from_str("unexpected character '");
        push_char(&mut msg, c4);
        msg.append("'.");
        proof {
            assert(msg@ =~= "unexpected character '"@ + seq![c4] + "'."@);
        }
        let mut errors: Vec<String> = Vec::new();
        errors.push(diag_at(line_idx, p4, msg.as_str()));
        ParseResult {
            value: ImportPath { segments },
            errors,
            warnings: Vec::new(),
            rest_range: InlineRange { line: line_idx, start_column: p4, end_column: end },
        }
    }
}

/// The advisory errors of a run of preamble lines, in order.
pub open spec fn spec_preamble_errors(s: Seq<Seq<char>>, b: Seq<InlineRange>) -> Seq<Seq<char>>
    decreases b.len(),
{
    if b.len() == 0 {
        Seq::empty()
    } else {
        spec_preamble_line(s, b[0]).errors + spec_preamble_errors(s, b.drop_first())
    }
}

/// The advisory errors of a run of import lines, in order.
pub open spec fn spec_import_errors(s: Seq<Seq<char>>, b: Seq<InlineRange>) -> Seq<Seq<char>>
    decreases b.len(),
{
    if b.len() == 0 {
        Seq::empty()
    } else {
        spec_import_line(s, b[0]).errors + spec_import_errors(s, b.drop_first())
    }
}

pub proof fn lemma_preamble_errors_take_step(s: Seq<Seq<char>>, b: Seq<InlineRange>, i: int)
    requires
        1 <= i <= b.len(),
    ensures
        spec_preamble_errors(s, b.take(i)) =~= spec_preamble_errors(s, b.take(i - 1))
            + spec_preamble_line(s, b[i - 1]).errors,
    decreases i,
{
    if i == 1 {
        assert(b.take(1).drop_first() =~= Seq::<InlineRange>::empty());
        assert(b.take(0) =~= Seq::<InlineRange>::empty());
        assert(b.take(1)[0] == b[0]);
    } else {
        lemma_preamble_errors_take_step(s, b.drop_first(), i - 1);
        assert(b.take(i).drop_first() =~= b.drop_first().take(i - 1));
        assert(b.take(i - 1).drop_first() =~= b.drop_first().take(i - 2));
        assert(b.take(i)[0] == b[0]);
        assert(b.take(i - 1)[0] == b[0]);
        assert(b.drop_first()[i - 2] == b[i - 1]);
    }
}

pub proof fn lemma_import_errors_take_step(s: Seq<Seq<char>>, b: Seq<InlineRange>, i: int)
    requires
        1 <= i <= b.len(),
    ensures
        spec_import_errors(s, b.take(i)) =~= spec_import_errors(s, b.take(i - 1))
            + spec_import_line(s, b[i - 1]).errors,
    decreases i,
{
    if i == 1 {
        assert(b.take(1).drop_first() =~= Seq::<InlineRange>::empty());
        assert(b.take(0) =~= Seq::<InlineRange>::empty());
        assert(b.take(1)[0] == b[0]);
    } else {
        lemma_import_errors_take_step(s, b.drop_first(), i - 1);
        assert(b.take(i).drop_first() =~= b.drop_first().take(i - 1));
        assert(b.take(i - 1).drop_first() =~= b.drop_first().take(i - 2));
        assert(b.take(i)[0] == b[0]);
        assert(b.take(i - 1)[0] == b[0]);
        assert(b.drop_first()[i - 2] == b[i - 1]);
    }
}

/// Parse a whole document: the leading preamble lines (each `%key value`),
/// then the import lines (each `import 'path';`), then block elements to
/// exhaustion.  Errors of all phases accumulate in order; warnings are never
/// produced; the whole input is consumed.
#[verifier::loop_isolation(false)]
pub fn parse_document(src: &Vec<Vec<char>>, src_range: BlockRange) -> (r: ParseResult<
    Document,
    BlockRange,
>)
    requires
        block_wf(lines_view(src), src_range@),
    ensures
        ({
            let s = lines_view(src);
            let b = src_range@;
            let n_pre = spec_lift_count(s, "%"@, b);
            let after = b.skip(n_pre);
            let n_imp = spec_lift_count(s, "import"@, after);
            &&& r.value.preamble@.len() == n_pre
            &&& forall|i: int|
                0 <= i < n_pre ==> ((#[trigger] r.value.preamble@[i]).0@ == spec_preamble_line(
                    s,
                    b[i],
                ).key && r.value.preamble@[i].1@ == spec_preamble_line(s, b[i]).value)
            &&& r.value.imports@.len() == n_imp
            &&& forall|i: int|
                0 <= i < n_imp ==> strs_view((#[trigger] r.value.imports@[i]).segments@)
                    =~= spec_import_line(s, after[i]).segments
            &&& strs_view(r.errors@) =~= spec_preamble_errors(s, b.take(n_pre))
                + spec_import_errors(s, after.take(n_imp))
            &&& bes_view(r.value.block_elements@) =~= spec_blocks_model(s, after.skip(n_imp))
            &&& r.warnings.len() == 0
            &&& r.rest_range@.len() == 0
            &&& forall|i: int|
                0 <= i < r.value.block_elements@.len() ==> !((
                #[trigger] r.value.block_elements@[i]) matches BlockElement::ParseError)
        }),
{
    let ghost s = lines_view(src);
    let ghost b = src_range@;
    let mut rest = src_range;
    let mut preamble: Vec<(String, String)> = Vec::new();
    let mut imports: Vec<ImportPath> = Vec::new();
    let mut errors: Vec<String> = Vec::new();
    let ghost mut i: int = 0;
    proof {
        assert(strs_view(errors@) =~= Seq::<Seq<char>>::empty());
        assert(b.take(0) =~= Seq::<InlineRange>::empty());
    }
    while rest.len() > 0 && starts_with(src, "%", &rest[0])
        invariant
            block_wf(s, rest@),
            0 <= i <= b.len(),
            rest@ =~= b.skip(i),
            preamble@.len() == i,
            forall|j: int| 0 <= j < i ==> spec_starts_with(s, "%"@, #[trigger] b[j]),
            forall|j: int|
                0 <= j < i ==> ((#[trigger] preamble@[j]).0@ == spec_preamble_line(s, b[j]).key
                    && preamble@[j].1@ == spec_preamble_line(s, b[j]).value),
            strs_view(errors@) =~= spec_preamble_errors(s, b.take(i)),
        decreases rest@.len(),
    {
        let ghost errs_old = errors@;
        let line = rest.pop_front().unwrap();
        let mut pres = parse_preamble(src, line);
        let ghost pres_errs = pres.errors@;
        preamble.push(pres.value);
        errors.append(&mut pres.errors);
        proof {
            i = i + 1;
            assert(rest@ =~= b.skip(i));
            lemma_preamble_errors_take_step(s, b, i);
            assert(strs_view(errs_old + pres_errs) =~= strs_view(errs_old) + strs_view(
                pres_errs,
            ));
            assert(errors@ =~= errs_old + pres_errs);
        }
    }
    proof {
        lemma_lift_count_from_prefix(s, "%"@, b, i);
    }
    let ghost n_pre = i;
    let ghost after = b.skip(n_pre);
    let ghost mut i2: int = 0;
    proof {
        assert(after.take(0) =~= Seq::<InlineRange>::empty());
    }
    while rest.len() > 0 && starts_with(src, "import", &rest[0])
        invariant
            block_wf(s, rest@),
            0 <= i2 <= after.len(),
            rest@ =~= after.skip(i2),
            imports@.len() == i2,
            forall|j: int| 0 <= j < i2 ==> spec_starts_with(s, "import"@, #[trigger] after[j]),
            forall|j: int|
                0 <= j < i2 ==> strs_view((#[trigger] imports@[j]).segments@) =~= spec_import_line(
                    s,
                    after[j],
                ).segments,
            strs_view(errors@) =~= spec_preamble_errors(s, b.take(n_pre)) + spec_import_errors(
                s,
                after.take(i2),
            ),
        decreases rest@.len(),
    {
        let ghost errs_old = errors@;
        let ghost imports_old = imports@;
        let line = rest.pop_front().unwrap();
        let mut imp = parse_import(src, line);
        let ghost imp_errs = imp.errors@;
        let ghost imp_val_segs = imp.value.segments@;
        imports.push(imp.value);
        errors.append(&mut imp.errors);
        proof {
            i2 = i2 + 1;
            assert(rest@ =~= after.skip(i2));
            lemma_import_errors_take_step(s, after, i2);
            assert(strs_view(errs_old + imp_errs) =~= strs_view(errs_old) + strs_view(imp_errs));
            assert(errors@ =~= errs_old + imp_errs);
            assert(forall|j: int|
                0 <= j < i2 - 1 ==> imports@[j] == imports_old[j]);
            assert(imports@[i2 - 1].segments@ == imp_val_segs);
        }
    }
    proof {
        lemma_lift_count_from_prefix(s, "import"@, after, i2);
    }
    let block_result = parse_block_elements(src, rest);
    ParseResult {
        value: Document { preamble, block_elements: block_result.value, imports },
        errors,
        warnings: Vec::new(),
        rest_range: block_result.rest_range,
    }
}

} // verus!
