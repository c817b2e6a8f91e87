//! The inline element parser: lexes one line span into text, link, math,
//! code and small-caps spans, in fixed priority order, with a greedy rescan
//! that turns unmatched characters into a single text span.
//!
//! The spec functions below form an exact model of the grammar; every
//! executable parser is proved to return precisely what the model says.

use vstd::prelude::*;
use crate::document::{lines_view, range_len, range_wf, spec_consume, InlineRange, InlineElement};
use crate::parse::ParseResult;
use crate::scan::{check_at, spec_find};

verus! {

/// Mathematical model of an inline element: like `InlineElement`, with
/// nested elements as a sequence.
#[verifier::ext_equal]
pub enum InlineModel {
    Text { range: InlineRange },
    Link { text: Seq<InlineModel>, url_range: InlineRange },
    Code { range: InlineRange },
    Math { range: InlineRange },
    SmallCaps { range: InlineRange },
    Fail,
}

/// The model an inline element denotes.
pub open spec fn ie_view(e: InlineElement) -> InlineModel
    decreases e via ie_view_decreases
{
    match e {
        InlineElement::Text { range } => InlineModel::Text { range },
        InlineElement::Link { text, url_range } => InlineModel::Link {
            text: Seq::new(
                text@.len(),
                |i: int|
                    if 0 <= i < text@.len() {
                        ie_view(text@[i])
                    } else {
                        InlineModel::Fail
                    },
            ),
            url_range,
        },
        InlineElement::Code { range } => InlineModel::Code { range },
        InlineElement::Math { range } => InlineModel::Math { range },
        InlineElement::SmallCaps { range } => InlineModel::SmallCaps { range },
        InlineElement::ParseError => InlineModel::Fail,
    }
}

#[via_fn]
proof fn ie_view_decreases(e: InlineElement) {
    broadcast use vstd::std_specs::vec::axiom_vec_index_decreases;

    match e {
        InlineElement::Link { text, url_range } => {
            assert forall|i: int| 0 <= i < text@.len() implies (decreases_to!(e => text@[i])) by {
                assert(decreases_to!(e => text));
                assert(decreases_to!(text => text[i]));
            }
        },
        _ => {},
    }
}

pub open spec fn ies_view(q: Seq<InlineElement>) -> Seq<InlineModel> {
    Seq::new(q.len(), |i: int| ie_view(q[i]))
}

pub proof fn lemma_ies_view_push(q: Seq<InlineElement>, e: InlineElement)
    ensures
        ies_view(q.push(e)) =~= ies_view(q).push(ie_view(e)),
{
}

/// A delimited span `c...c` starting at the front of `r`: the content span
/// between the delimiters and the rest of the line after the closing one.
pub open spec fn spec_delim(s: Seq<Seq<char>>, r: InlineRange, c: char) -> Option<
    (InlineRange, InlineRange),
> {
    if range_len(r) >= 1 && s[r.line as int][r.start_column as int] == c {
        let inner = spec_consume(r, 1);
        match spec_find(s, inner, c) {
            Some(j) => if inner.start_column <= j < r.end_column {
                Some(
                    (
                        InlineRange {
                            line: r.line,
                            start_column: inner.start_column,
                            end_column: j as usize,
                        },
                        InlineRange {
                            line: r.line,
                            start_column: (j + 1) as usize,
                            end_column: r.end_column,
                        },
                    ),
                )
            } else {
                None
            },
            None => None,
        }
    } else {
        None
    }
}

/// A link `[text](url)` starting at the front of `r`; its bracketed text is
/// itself inline-parsed.
pub open spec fn spec_link(s: Seq<Seq<char>>, r: InlineRange) -> Option<
    (InlineModel, InlineRange),
>
    decreases range_len(r), 0int,
{
    if range_len(r) >= 1 && s[r.line as int][r.start_column as int] == '[' {
        let after_open = spec_consume(r, 1);
        match spec_find(s, after_open, ']') {
            Some(j) => if after_open.start_column <= j < r.end_column {
                let text_r = InlineRange {
                    line: r.line,
                    start_column: after_open.start_column,
                    end_column: j as usize,
                };
                if j + 1 < r.end_column && s[r.line as int][j + 1] == '(' {
                    let after_paren = InlineRange {
                        line: r.line,
                        start_column: (j + 2) as usize,
                        end_column: r.end_column,
                    };
                    match spec_find(s, after_paren, ')') {
                        Some(k) => if j + 2 <= k < r.end_column {
                            Some(
                                (
                                    InlineModel::Link {
                                        text: spec_inlines(s, text_r),
                                        url_range: InlineRange {
                                            line: r.line,
                                            start_column: (j + 2) as usize,
                                            end_column: k as usize,
                                        },
                                    },
                                    InlineRange {
                                        line: r.line,
                                        start_column: (k + 1) as usize,
                                        end_column: r.end_column,
                                    },
                                ),
                            )
                        } else {
                            None
                        },
                        None => None,
                    }
                } else {
                    None
                }
            } else {
                None
            },
            None => None,
        }
    } else {
        None
    }
}

/// The highest-priority inline alternative that matches at the front of `r`:
/// link, then math, then code, then small caps.
pub open spec fn spec_any(s: Seq<Seq<char>>, r: InlineRange) -> Option<(InlineModel, InlineRange)>
    decreases range_len(r), 1int,
{
    match spec_link(s, r) {
        Some(p) => Some(p),
        None => match spec_delim(s, r, '$') {
            Some((c, rest)) => Some((InlineModel::Math { range: c }, rest)),
            None => match spec_delim(s, r, '`') {
                Some((c, rest)) => Some((InlineModel::Code { range: c }, rest)),
                None => match spec_delim(s, r, '%') {
                    Some((c, rest)) => Some((InlineModel::SmallCaps { range: c }, rest)),
                    None => None,
                },
            },
        },
    }
}

/// The column where the greedy rescan stops: the first position at or after
/// the front of `r` where some alternative matches, or the end of the span.
pub open spec fn spec_scan_end(s: Seq<Seq<char>>, r: InlineRange) -> int
    decreases range_len(r), 2int,
{
    if range_len(r) <= 0 {
        r.start_column as int
    } else if spec_any(s, r) is Some {
        r.start_column as int
    } else {
        spec_scan_end(s, spec_consume(r, 1))
    }
}

/// One step of the inline parser: the matching alternative at the front, or
/// the text span produced by the greedy rescan.
pub open spec fn spec_step(s: Seq<Seq<char>>, r: InlineRange) -> (InlineModel, InlineRange)
    decreases range_len(r), 3int,
{
    match spec_any(s, r) {
        Some(p) => p,
        None => {
            let p = spec_scan_end(s, r);
            (
                InlineModel::Text {
                    range: InlineRange {
                        line: r.line,
                        start_column: r.start_column,
                        end_column: p as usize,
                    },
                },
                InlineRange { line: r.line, start_column: p as usize, end_column: r.end_column },
            )
        },
    }
}

/// The full inline parse of a line span: steps applied until the span is
/// exhausted.  (Each step consumes at least one character, so the guard on
/// the recursive call always holds; see `lemma_spec_step_consumes`.)
pub open spec fn spec_inlines(s: Seq<Seq<char>>, r: InlineRange) -> Seq<InlineModel>
    decreases range_len(r), 4int,
{
    if range_len(r) <= 0 {
        Seq::empty()
    } else {
        let (m, rest) = spec_step(s, r);
        if range_len(rest) < range_len(r) && rest.start_column <= rest.end_column
            && rest.end_column == r.end_column {
            seq![m] + spec_inlines(s, rest)
        } else {
            seq![m]
        }
    }
}

pub proof fn lemma_spec_scan_end_bounds(s: Seq<Seq<char>>, r: InlineRange)
    requires
        r.start_column <= r.end_column,
    ensures
        r.start_column <= spec_scan_end(s, r) <= r.end_column,
    decreases range_len(r),
{
    if range_len(r) > 0 && !(spec_any(s, r) is Some) {
        lemma_spec_scan_end_bounds(s, spec_consume(r, 1));
    }
}

pub proof fn lemma_spec_any_consumes(s: Seq<Seq<char>>, r: InlineRange)
    requires
        r.start_column <= r.end_column,
    ensures
        spec_any(s, r) matches Some((m, rest)) ==> rest.line == r.line && rest.end_column
            == r.end_column && r.start_column < rest.start_column <= r.end_column,
{
}

/// One inline step always consumes at least one character of a non-empty
/// span, and never reaches beyond it.
pub proof fn lemma_spec_step_consumes(s: Seq<Seq<char>>, r: InlineRange)
    requires
        r.start_column <= r.end_column,
    ensures
        spec_step(s, r).1.line == r.line,
        spec_step(s, r).1.end_column == r.end_column,
        r.start_column <= spec_step(s, r).1.start_column <= r.end_column,
        range_len(r) > 0 ==> r.start_column < spec_step(s, r).1.start_column,
{
    lemma_spec_any_consumes(s, r);
    if !(spec_any(s, r) is Some) {
        lemma_spec_scan_end_bounds(s, r);
        if range_len(r) > 0 {
            lemma_spec_scan_end_bounds(s, spec_consume(r, 1));
        }
    }
}

/// The first position of a span at which some inline alternative matches, as
/// tested by the executable parsers.
fn find_char(src: &Vec<Vec<char>>, range: &InlineRange, c: char) -> (res: Option<usize>)
    requires
        range_wf(lines_view(src), *range),
    ensures
        match res {
            Some(j) => spec_find(lines_view(src), *range, c) == Some(j as int)
                && range.start_column <= j < range.end_column,
            None => spec_find(lines_view(src), *range, c) is None,
        },
{
    let ghost s = lines_view(src);
    let mut cur: InlineRange = *range;
    while cur.start_column < cur.end_column
        invariant
            s == lines_view(src),
            range_wf(s, *range),
            range_wf(s, cur),
            cur.line == range.line,
            cur.end_column == range.end_column,
            range.start_column <= cur.start_column,
            spec_find(s, cur, c) == spec_find(s, *range, c),
        decreases cur.end_column - cur.start_column,
    {
        if src[cur.line][cur.start_column] == c {
            return Some(cur.start_column);
        }
        cur.move_to_next_char();
    }
    None
}

/// A `c...c` delimited span at the front of the given range, if both
/// delimiters stand within it.
fn parse_inline_delimited(src: &Vec<Vec<char>>, rest_range: &InlineRange, delim: char) -> (res:
    Option<(InlineRange, InlineRange)>)
    requires
        range_wf(lines_view(src), *rest_range),
    ensures
        res == spec_delim(lines_view(src), *rest_range, delim),
        res matches Some((content, rest)) ==> range_wf(lines_view(src), content) && range_wf(
            lines_view(src),
            rest,
        ) && rest.line == rest_range.line && rest.end_column == rest_range.end_column
            && rest_range.start_column + 2 <= rest.start_column,
{
    let ghost s = lines_view(src);
    if !check_at(src, delim, rest_range) {
        return None;
    }
    let inner: InlineRange = rest_range.consume(1);
    match find_char(src, &inner, delim) {
        Some(j) => {
            let content = InlineRange {
                line: rest_range.line,
                start_column: inner.start_column,
                end_column: j,
            };
            let rest = InlineRange {
                line: rest_range.line,
                start_column: j + 1,
                end_column: rest_range.end_column,
            };
            Some((content, rest))
        },
        None => None,
    }
}

pub fn parse_inline_math_element(src: &Vec<Vec<char>>, rest_range: &InlineRange) -> (r:
    ParseResult<InlineElement, InlineRange>)
    requires
        range_wf(lines_view(src), *rest_range),
    ensures
        r.errors.len() == 0 && r.warnings.len() == 0,
        match spec_delim(lines_view(src), *rest_range, '$') {
            Some((content, rest)) => r.value == (InlineElement::Math { range: content })
                && r.rest_range == rest,
            None => r.value matches InlineElement::ParseError && r.rest_range == *rest_range,
        },
        range_wf(lines_view(src), r.rest_range),
{
    match parse_inline_delimited(src, rest_range, '$') {
        Some((content, rest)) => ParseResult {
            value: InlineElement::Math { range: content },
            errors: Vec::new(),
            warnings: Vec::new(),
            rest_range: rest,
        },
        None => ParseResult {
            value: InlineElement::ParseError,
            errors: Vec::new(),
            warnings: Vec::new(),
            rest_range: *rest_range,
        },
    }
}

pub fn parse_inline_code_element(src: &Vec<Vec<char>>, rest_range: &InlineRange) -> (r:
    ParseResult<InlineElement, InlineRange>)
    requires
        range_wf(lines_view(src), *rest_range),
    ensures
        r.errors.len() == 0 && r.warnings.len() == 0,
        match spec_delim(lines_view(src), *rest_range, '`') {
            Some((content, rest)) => r.value == (InlineElement::Code { range: content })
                && r.rest_range == rest,
            None => r.value matches InlineElement::ParseError && r.rest_range == *rest_range,
        },
        range_wf(lines_view(src), r.rest_range),
{
    match parse_inline_delimited(src, rest_range, '`') {
        Some((content, rest)) => ParseResult {
            value: InlineElement::Code { range: content },
            errors: Vec::new(),
            warnings: Vec::new(),
            rest_range: rest,
        },
        None => ParseResult {
            value: InlineElement::ParseError,
            errors: Vec::new(),
            warnings: Vec::new(),
            rest_range: *rest_range,
        },
    }
}

pub fn parse_inline_small_caps_element(src: &Vec<Vec<char>>, rest_range: &InlineRange) -> (r:
    ParseResult<InlineElement, InlineRange>)
    requires
        range_wf(lines_view(src), *rest_range),
    ensures
        r.errors.len() == 0 && r.warnings.len() == 0,
        match spec_delim(lines_view(src), *rest_range, '%') {
            Some((content, rest)) => r.value == (InlineElement::SmallCaps { range: content })
                && r.rest_range == rest,
            None => r.value matches InlineElement::ParseError && r.rest_range == *rest_range,
        },
        range_wf(lines_view(src), r.rest_range),
{
    match parse_inline_delimited(src, rest_range, '%') {
        Some((content, rest)) => ParseResult {
            value: InlineElement::SmallCaps { range: content },
            errors: Vec::new(),
            warnings: Vec::new(),
            rest_range: rest,
        },
        None => ParseResult {
            value: InlineElement::ParseError,
            errors: Vec::new(),
            warnings: Vec::new(),
            rest_range: *rest_range,
        },
    }
}

pub fn parse_inline_link_element(src: &Vec<Vec<char>>, rest_range: &InlineRange) -> (r:
    ParseResult<InlineElement, InlineRange>)
    requires
        range_wf(lines_view(src), *rest_range),
    ensures
        r.errors.len() == 0 && r.warnings.len() == 0,
        match spec_link(lines_view(src), *rest_range) {
            Some((m, rest)) => ie_view(r.value) == m && r.rest_range == rest && !(r.value
                matches InlineElement::ParseError),
            None => r.value matches InlineElement::ParseError && r.rest_range == *rest_range,
        },
        range_wf(lines_view(src), r.rest_range),
    decreases range_len(*rest_range), 0int,
{
    let ghost s = lines_view(src);
    let fail_value = ParseResult {
        value: InlineElement::ParseError,
        errors: Vec::new(),
        warnings: Vec::new(),
        rest_range: *rest_range,
    };
    if !check_at(src, '[', rest_range) {
        return fail_value;
    }
    let after_open: InlineRange = rest_range.consume(1);
    let j: usize = match find_char(src, &after_open, ']') {
        Some(j) => j,
        None => {
            return fail_value;
        },
    };
    let text_range = InlineRange {
        line: rest_range.line,
        start_column: after_open.start_column,
        end_column: j,
    };
    let after_close = InlineRange {
        line: rest_range.line,
        start_column: j + 1,
        end_column: rest_range.end_column,
    };
    if !check_at(src, '(', &after_close) {
        return fail_value;
    }
    let after_paren: InlineRange = after_close.consume(1);
    let k: usize = match find_char(src, &after_paren, ')') {
        Some(k) => k,
        None => {
            return fail_value;
        },
    };
    let text_result = parse_inline_elements(src, text_range);
    let url_range = InlineRange {
        line: rest_range.line,
        start_column: after_paren.start_column,
        end_column: k,
    };
    let rest = InlineRange {
        line: rest_range.line,
        start_column: k + 1,
        end_column: rest_range.end_column,
    };
    let ghost text_seq = text_result.value@;
    let value = InlineElement::Link { text: text_result.value, url_range };
    proof {
        assert(spec_link(s, *rest_range) == Some(
            (InlineModel::Link { text: spec_inlines(s, text_range), url_range }, rest),
        ));
        let lhs = ie_view(value);
        assert(lhs matches InlineModel::Link { text: t, url_range: u } && t =~= ies_view(text_seq)
            && u == url_range);
        assert(ie_view(value) =~= (InlineModel::Link { text: ies_view(text_seq), url_range }));
    }
    ParseResult {
        value,
        errors: Vec::new(),
        warnings: Vec::new(),
        rest_range: rest,
    }
}

/// One inline element at the front of the span: the first matching
/// alternative, or a text span grown by the greedy rescan until some
/// alternative matches or the span ends.
pub fn parse_inline_element(src: &Vec<Vec<char>>, rest_range: InlineRange) -> (r: ParseResult<
    InlineElement,
    InlineRange,
>)
    requires
        range_wf(lines_view(src), rest_range),
    ensures
        r.errors.len() == 0 && r.warnings.len() == 0,
        ie_view(r.value) == spec_step(lines_view(src), rest_range).0,
        r.rest_range == spec_step(lines_view(src), rest_range).1,
        range_wf(lines_view(src), r.rest_range),
        r.rest_range.line == rest_range.line && r.rest_range.end_column == rest_range.end_column
            && rest_range.start_column <= r.rest_range.start_column,
        range_len(rest_range) > 0 ==> rest_range.start_column < r.rest_range.start_column,
    decreases range_len(rest_range), 1int,
{
    let ghost s = lines_view(src);
    proof {
        lemma_spec_step_consumes(s, rest_range);
    }
    let result = parse_inline_link_element(src, &rest_range);
    if !result.value.is_parse_error() {
        return result;
    }
    let result = parse_inline_math_element(src, &rest_range);
    if !result.value.is_parse_error() {
        return result;
    }
    let result = parse_inline_code_element(src, &rest_range);
    if !result.value.is_parse_error() {
        return result;
    }
    let result = parse_inline_small_caps_element(src, &rest_range);
    if !result.value.is_parse_error() {
        return result;
    }
    // No alternative matches at the current position: greedy rescan.
    proof {
        assert(spec_any(s, rest_range) is None);
    }
    let start_column: usize = rest_range.start_column;
    let mut cur: InlineRange = rest_range;
    let mut stopped: bool = false;
    while !stopped && cur.start_column < cur.end_column
        invariant
            s == lines_view(src),
            range_wf(s, rest_range),
            range_wf(s, cur),
            cur.line == rest_range.line,
            cur.end_column == rest_range.end_column,
            start_column == rest_range.start_column,
            rest_range.start_column <= cur.start_column,
            spec_scan_end(s, cur) == spec_scan_end(s, rest_range),
            spec_any(s, rest_range) is None,
            stopped ==> spec_any(s, cur) is Some,
        decreases cur.end_column - cur.start_column + (if stopped { 0int } else { 1int }),
    {
        let hit = {
            let result = parse_inline_link_element(src, &cur);
            if !result.value.is_parse_error() {
                true
            } else {
                let result = parse_inline_math_element(src, &cur);
                if !result.value.is_parse_error() {
                    true
                } else {
                    let result = parse_inline_code_element(src, &cur);
                    if !result.value.is_parse_error() {
                        true
                    } else {
                        let result = parse_inline_small_caps_element(src, &cur);
                        !result.value.is_parse_error()
                    }
                }
            }
        };
        if hit {
            stopped = true;
        } else {
            proof {
                assert(spec_any(s, cur) is None);
                assert(spec_scan_end(s, cur) == spec_scan_end(s, spec_consume(cur, 1)));
            }
            cur.move_to_next_char();
        }
    }
    proof {
        lemma_spec_scan_end_bounds(s, cur);
        assert(spec_scan_end(s, cur) == cur.start_column as int);
        assert(spec_scan_end(s, rest_range) == cur.start_column as int);
        assert(spec_step(s, rest_range).1 == cur);
    }
    ParseResult {
        value: InlineElement::Text {
            range: InlineRange {
                line: rest_range.line,
                start_column,
                end_column: cur.start_column,
            },
        },
        errors: Vec::new(),
        warnings: Vec::new(),
        rest_range: cur,
    }
}

/// The full inline parse of a line span, run to exhaustion.
pub fn parse_inline_elements(src: &Vec<Vec<char>>, rest_range: InlineRange) -> (r: ParseResult<
    Vec<InlineElement>,
    InlineRange,
>)
    requires
        range_wf(lines_view(src), rest_range),
    ensures
        r.errors.len() == 0 && r.warnings.len() == 0,
        ies_view(r.value@) == spec_inlines(lines_view(src), rest_range),
        range_len(r.rest_range) == 0,
        r.rest_range.line == rest_range.line && r.rest_range.end_column == rest_range.end_column,
        range_wf(lines_view(src), r.rest_range),
    decreases range_len(rest_range), 2int,
{
    let ghost s = lines_view(src);
    let mut inline_elements: Vec<InlineElement> = Vec::new();
    let mut cur: InlineRange = rest_range;
    while cur.start_column < cur.end_column
        invariant
            s == lines_view(src),
            range_wf(s, rest_range),
            range_wf(s, cur),
            cur.line == rest_range.line,
            cur.end_column == rest_range.end_column,
            rest_range.start_column <= cur.start_column,
            spec_inlines(s, rest_range) =~= ies_view(inline_elements@) + spec_inlines(s, cur),
        decreases cur.end_column - cur.start_column,
    {
        proof {
            lemma_spec_step_consumes(s, cur);
        }
        let ghost prev = cur;
        let ghost prev_elements = inline_elements@;
        let result = parse_inline_element(src, cur);
        let ghost pushed = result.value;
        inline_elements.push(result.value);
        cur = result.rest_range;
        proof {
            lemma_ies_view_push(prev_elements, pushed);
            assert(spec_inlines(s, prev) =~= seq![spec_step(s, prev).0] + spec_inlines(s, cur));
            assert(ies_view(inline_elements@) + spec_inlines(s, cur) =~= ies_view(prev_elements)
                + spec_inlines(s, prev));
        }
    }
    ParseResult {
        value: inline_elements,
        errors: Vec::new(),
        warnings: Vec::new(),
        rest_range: cur,
    }
}

} // verus!
