//! The block element dispatcher and its recognizers.
//!
//! Each recognizer takes the remaining `BlockRange` by value and returns it
//! inside its result; a recognizer that does not match hands the range back
//! exactly as it was given, so the dispatcher may try the next alternative.

use vstd::prelude::*;
use std::collections::VecDeque;
use crate::document::{
    block_weight, block_wf, lemma_block_weight_bounds, lemma_block_weight_split, line_weight,
    lines_view, range_len, range_wf, spec_consume, BlockElement, BlockRange, Derivation,
    InlineRange, ListItem, ListMarkKind, TheoremKind,
};
use crate::inline::{ies_view, parse_inline_elements, spec_inlines, InlineModel};
use crate::model::{
    be_view, bes_view, deriv_view, derivs_view, lemma_be_view_unfold, lemma_deriv_view_unfold,
    lemma_derivs_view_push, lemma_lis_view_push, lis_view, list_item_view, BlockModel,
    DerivationModel, ListItemModel,
};
use crate::parse::ParseResult;
use crate::scan::{
    check_at, match_, spec_count_prefix_char, spec_match, spec_starts_with,
    starts_with,
};

verus! {

/// The front line of the queue, without consuming it.
pub fn front_line(q: &BlockRange) -> (r: Option<InlineRange>)
    ensures
        match r {
            Some(line) => q@.len() > 0 && line == q@[0],
            None => q@.len() == 0,
        },
{
    if q.len() > 0 {
        Some(q[0])
    } else {
        None
    }
}

/// Count the consecutive occurrences of `c` at the front of the span.
pub fn count_prefix_char(src: &Vec<Vec<char>>, range: &InlineRange, c: char) -> (n: usize)
    requires
        range_wf(lines_view(src), *range),
    ensures
        n as int == spec_count_prefix_char(lines_view(src), *range, c),
        n <= range_len(*range),
{
    let ghost s = lines_view(src);
    let mut cur: InlineRange = *range;
    let mut n: usize = 0;
    while check_at(src, c, &cur)
        invariant
            s == lines_view(src),
            range_wf(s, *range),
            range_wf(s, cur),
            cur.line == range.line,
            cur.end_column == range.end_column,
            range.start_column + n == cur.start_column,
            spec_count_prefix_char(s, *range, c) == n + spec_count_prefix_char(s, cur, c),
        decreases cur.end_column - cur.start_column,
    {
        cur.move_to_next_char();
        n = n + 1;
    }
    n
}

/// Number of leading lines of `b` that begin with the prefix `pat`.
pub open spec fn spec_lift_count(s: Seq<Seq<char>>, pat: Seq<char>, b: Seq<InlineRange>) -> int
    decreases b.len(),
{
    if b.len() == 0 || !spec_starts_with(s, pat, b[0]) {
        0
    } else {
        1 + spec_lift_count(s, pat, b.drop_first())
    }
}

/// The first `k` lines of `b`, each with `p` characters of prefix consumed.
pub open spec fn spec_lifted(b: Seq<InlineRange>, k: int, p: int) -> Seq<InlineRange> {
    Seq::new(k as nat, |i: int| spec_consume(b[i], p))
}

pub proof fn lemma_lift_count_bounds(s: Seq<Seq<char>>, pat: Seq<char>, b: Seq<InlineRange>)
    ensures
        0 <= spec_lift_count(s, pat, b) <= b.len(),
        forall|i: int|
            0 <= i < spec_lift_count(s, pat, b) ==> spec_starts_with(s, pat, #[trigger] b[i]),
    decreases b.len(),
{
    if b.len() > 0 && spec_starts_with(s, pat, b[0]) {
        lemma_lift_count_bounds(s, pat, b.drop_first());
        assert(forall|i: int|
            1 <= i < spec_lift_count(s, pat, b) ==> b[i] == b.drop_first()[i - 1]);
    }
}

/// If the first `i` lines carry the prefix and line `i` (if any) does not,
/// then exactly `i` lines are lifted.
pub proof fn lemma_lift_count_from_prefix(
    s: Seq<Seq<char>>,
    pat: Seq<char>,
    b: Seq<InlineRange>,
    i: int,
)
    requires
        0 <= i <= b.len(),
        forall|j: int| 0 <= j < i ==> spec_starts_with(s, pat, #[trigger] b[j]),
        i == b.len() || !spec_starts_with(s, pat, b[i]),
    ensures
        spec_lift_count(s, pat, b) == i,
    decreases i,
{
    if i == 0 {
    } else {
        lemma_lift_count_from_prefix(s, pat, b.drop_first(), i - 1);
    }
}

/// Lifting takes `p` characters off each of the `k` lifted lines, so the
/// lifted region weighs `k * p` less than the lines it came from.
pub proof fn lemma_lifted_weight(b: Seq<InlineRange>, k: int, p: int)
    requires
        0 <= k <= b.len(),
        0 <= p,
        forall|i: int|
            0 <= i < k ==> (#[trigger] b[i]).start_column + p <= b[i].end_column,
    ensures
        block_weight(spec_lifted(b, k, p)) == block_weight(b.take(k)) - k * p,
    decreases k,
{
    if k == 0 {
        assert(spec_lifted(b, 0, p) =~= Seq::<InlineRange>::empty());
        assert(b.take(0) =~= Seq::<InlineRange>::empty());
    } else {
        lemma_lifted_weight(b.drop_first(), k - 1, p);
        assert(spec_lifted(b, k, p).drop_first() =~= spec_lifted(b.drop_first(), k - 1, p));
        assert(b.take(k).drop_first() =~= b.drop_first().take(k - 1));
        assert(spec_lifted(b, k, p)[0] == spec_consume(b[0], p));
        assert(b.take(k)[0] == b[0]);
        assert(line_weight(spec_consume(b[0], p)) == line_weight(b[0]) - p);
        assert((k - 1) * p == k * p - p) by (nonlinear_arith);
    }
}

/// Consuming whole lines from the front strictly lowers the weight.
pub proof fn lemma_weight_skip_lt(b: Seq<InlineRange>, c: int)
    requires
        1 <= c <= b.len(),
    ensures
        block_weight(b.skip(c)) < block_weight(b),
        block_weight(b.skip(c)) >= 0,
{
    lemma_block_weight_split(b, c);
    lemma_block_weight_bounds(b.take(c));
    lemma_block_weight_bounds(b.skip(c));
}

/// Indent-Lift is idempotent on ranges it does not apply to: when the front
/// line does not carry the prefix (or there is no line at all), nothing is
/// lifted and the remaining range is the original one, unchanged.  Together
/// with the contract of `lift_block_range` this pins the call's result:
/// an empty lifted region and the input handed back as it was given.
pub proof fn lemma_indent_lift_no_prefix(s: Seq<Seq<char>>, pat: Seq<char>, b: Seq<InlineRange>)
    requires
        b.len() == 0 || !spec_starts_with(s, pat, b[0]),
    ensures
        spec_lift_count(s, pat, b) == 0,
        spec_lifted(b, spec_lift_count(s, pat, b), pat.len() as int) =~= Seq::<
            InlineRange,
        >::empty(),
        b.skip(spec_lift_count(s, pat, b)) =~= b,
{
}

/// Indent-Lift: strip the fixed prefix `prefix` from the contiguous run of
/// lines at the front of `range` that carry it.  The lifted lines come back
/// as the value, the rest of the input as the remaining range.  When the
/// front line does not carry the prefix, nothing is lifted and the range
/// comes back unchanged.
pub fn lift_block_range(src: &Vec<Vec<char>>, prefix: &str, range: BlockRange) -> (r: ParseResult<
    BlockRange,
    BlockRange,
>)
    requires
        block_wf(lines_view(src), range@),
    ensures
        ({
            let s = lines_view(src);
            let k = spec_lift_count(s, prefix@, range@);
            &&& r.value@ =~= spec_lifted(range@, k, prefix@.len() as int)
            &&& r.rest_range@ =~= range@.skip(k)
            &&& block_wf(s, r.value@)
            &&& block_wf(s, r.rest_range@)
            &&& r.errors.len() == 0
            &&& r.warnings.len() == 0
        }),
{
    let ghost s = lines_view(src);
    let ghost b = range@;
    let plen: usize = prefix.unicode_len();
    let mut rest = range;
    let mut lifted: BlockRange = VecDeque::new();
    while rest.len() > 0 && starts_with(src, prefix, &rest[0])
        invariant
            s == lines_view(src),
            block_wf(s, b),
            block_wf(s, rest@),
            block_wf(s, lifted@),
            plen == prefix@.len(),
            lifted@.len() <= b.len(),
            rest@ =~= b.skip(lifted@.len() as int),
            forall|j: int|
                0 <= j < lifted@.len() ==> spec_starts_with(s, prefix@, #[trigger] b[j]),
            lifted@ =~= spec_lifted(b, lifted@.len() as int, plen as int),
        decreases rest@.len(),
    {
        let line = rest.pop_front().unwrap();
        lifted.push_back(line.consume(plen));
        proof {
            assert(rest@ =~= b.skip(lifted@.len() as int));
            assert(lifted@ =~= spec_lifted(b, lifted@.len() as int, plen as int));
        }
    }
    proof {
        lemma_lift_count_from_prefix(s, prefix@, b, lifted@.len() as int);
    }
    ParseResult {
        value: lifted,
        errors: Vec::new(),
        warnings: Vec::new(),
        rest_range: rest,
    }
}

/// The entry of the theorem-mark table matching the front of the span: the
/// kind it names and the length of the mark.
pub open spec fn spec_theorem_mark(s: Seq<Seq<char>>, r: InlineRange) -> Option<
    (TheoremKind, int),
> {
    if spec_starts_with(s, "Theorem. "@, r) {
        Some((TheoremKind::Theorem, "Theorem. "@.len() as int))
    } else if spec_starts_with(s, "theorem. "@, r) {
        Some((TheoremKind::Theorem, "theorem. "@.len() as int))
    } else if spec_starts_with(s, "Thm. "@, r) {
        Some((TheoremKind::Theorem, "Thm. "@.len() as int))
    } else if spec_starts_with(s, "thm. "@, r) {
        Some((TheoremKind::Theorem, "thm. "@.len() as int))
    } else if spec_starts_with(s, "Th. "@, r) {
        Some((TheoremKind::Theorem, "Th. "@.len() as int))
    } else if spec_starts_with(s, "th. "@, r) {
        Some((TheoremKind::Theorem, "th. "@.len() as int))
    } else if spec_starts_with(s, "Proposition. "@, r) {
        Some((TheoremKind::Proposition, "Proposition. "@.len() as int))
    } else if spec_starts_with(s, "proposition. "@, r) {
        Some((TheoremKind::Proposition, "proposition. "@.len() as int))
    } else if spec_starts_with(s, "Prop. "@, r) {
        Some((TheoremKind::Proposition, "Prop. "@.len() as int))
    } else if spec_starts_with(s, "prop. "@, r) {
        Some((TheoremKind::Proposition, "prop. "@.len() as int))
    } else if spec_starts_with(s, "Lemma. "@, r) {
        Some((TheoremKind::Lemma, "Lemma. "@.len() as int))
    } else if spec_starts_with(s, "lemma. "@, r) {
        Some((TheoremKind::Lemma, "lemma. "@.len() as int))
    } else if spec_starts_with(s, "Lem. "@, r) {
        Some((TheoremKind::Lemma, "Lem. "@.len() as int))
    } else if spec_starts_with(s, "lem. "@, r) {
        Some((TheoremKind::Lemma, "lem. "@.len() as int))
    } else if spec_starts_with(s, "Corollary. "@, r) {
        Some((TheoremKind::Corollary, "Corollary. "@.len() as int))
    } else if spec_starts_with(s, "corollary. "@, r) {
        Some((TheoremKind::Corollary, "corollary. "@.len() as int))
    } else if spec_starts_with(s, "Cor. "@, r) {
        Some((TheoremKind::Corollary, "Cor. "@.len() as int))
    } else if spec_starts_with(s, "cor. "@, r) {
        Some((TheoremKind::Corollary, "cor. "@.len() as int))
    } else if spec_starts_with(s, "Definition. "@, r) {
        Some((TheoremKind::Definition, "Definition. "@.len() as int))
    } else if spec_starts_with(s, "definition. "@, r) {
        Some((TheoremKind::Definition, "definition. "@.len() as int))
    } else if spec_starts_with(s, "Def. "@, r) {
        Some((TheoremKind::Definition, "Def. "@.len() as int))
    } else if spec_starts_with(s, "def. "@, r) {
        Some((TheoremKind::Definition, "def. "@.len() as int))
    } else if spec_starts_with(s, "Axiom. "@, r) {
        Some((TheoremKind::Axiom, "Axiom. "@.len() as int))
    } else if spec_starts_with(s, "axiom. "@, r) {
        Some((TheoremKind::Axiom, "axiom. "@.len() as int))
    } else if spec_starts_with(s, "Axm. "@, r) {
        Some((TheoremKind::Axiom, "Axm. "@.len() as int))
    } else if spec_starts_with(s, "axm. "@, r) {
        Some((TheoremKind::Axiom, "axm. "@.len() as int))
    } else {
        None
    }
}

fn kind_ok(kind: TheoremKind, rest: InlineRange) -> (r: ParseResult<TheoremKind, InlineRange>)
    ensures
        r.value == kind,
        r.rest_range == rest,
        r.errors.len() == 0,
        r.warnings.len() == 0,
{
    ParseResult { value: kind, errors: Vec::new(), warnings: Vec::new(), rest_range: rest }
}

/// Recognize an entry of the theorem-mark table at the front of the span;
/// the remaining range starts right after the mark.
pub fn parse_theorem_kind(src: &Vec<Vec<char>>, rest_range: &InlineRange) -> (r: ParseResult<
    TheoremKind,
    InlineRange,
>)
    requires
        range_wf(lines_view(src), *rest_range),
    ensures
        r.errors.len() == 0 && r.warnings.len() == 0,
        match spec_theorem_mark(lines_view(src), *rest_range) {
            Some((kind, len)) => r.value == kind && kind != TheoremKind::ParseError
                && r.rest_range == spec_consume(*rest_range, len) && range_wf(
                lines_view(src),
                r.rest_range,
            ),
            None => r.value == TheoremKind::ParseError && r.rest_range == *rest_range,
        },
{
    if starts_with(src, "Theorem. ", rest_range) {
        return kind_ok(TheoremKind::Theorem, rest_range.consume("Theorem. ".unicode_len()));
    }
    if starts_with(src, "theorem. ", rest_range) {
        return kind_ok(TheoremKind::Theorem, rest_range.consume("theorem. ".unicode_len()));
    }
    if starts_with(src, "Thm. ", rest_range) {
        return kind_ok(TheoremKind::Theorem, rest_range.consume("Thm. ".unicode_len()));
    }
    if starts_with(src, "thm. ", rest_range) {
        return kind_ok(TheoremKind::Theorem, rest_range.consume("thm. ".unicode_len()));
    }
    if starts_with(src, "Th. ", rest_range) {
        return kind_ok(TheoremKind::Theorem, rest_range.consume("Th. ".unicode_len()));
    }
    if starts_with(src, "th. ", rest_range) {
        return kind_ok(TheoremKind::Theorem, rest_range.consume("th. ".unicode_len()));
    }
    if starts_with(src, "Proposition. ", rest_range) {
        return kind_ok(TheoremKind::Proposition, rest_range.consume("Proposition. ".unicode_len()));
    }
    if starts_with(src, "proposition. ", rest_range) {
        return kind_ok(TheoremKind::Proposition, rest_range.consume("proposition. ".unicode_len()));
    }
    if starts_with(src, "Prop. ", rest_range) {
        return kind_ok(TheoremKind::Proposition, rest_range.consume("Prop. ".unicode_len()));
    }
    if starts_with(src, "prop. ", rest_range) {
        return kind_ok(TheoremKind::Proposition, rest_range.consume("prop. ".unicode_len()));
    }
    if starts_with(src, "Lemma. ", rest_range) {
        return kind_ok(TheoremKind::Lemma, rest_range.consume("Lemma. ".unicode_len()));
    }
    if starts_with(src, "lemma. ", rest_range) {
        return kind_ok(TheoremKind::Lemma, rest_range.consume("lemma. ".unicode_len()));
    }
    if starts_with(src, "Lem. ", rest_range) {
        return kind_ok(TheoremKind::Lemma, rest_range.consume("Lem. ".unicode_len()));
    }
    if starts_with(src, "lem. ", rest_range) {
        return kind_ok(TheoremKind::Lemma, rest_range.consume("lem. ".unicode_len()));
    }
    if starts_with(src, "Corollary. ", rest_range) {
        return kind_ok(TheoremKind::Corollary, rest_range.consume("Corollary. ".unicode_len()));
    }
    if starts_with(src, "corollary. ", rest_range) {
        return kind_ok(TheoremKind::Corollary, rest_range.consume("corollary. ".unicode_len()));
    }
    if starts_with(src, "Cor. ", rest_range) {
        return kind_ok(TheoremKind::Corollary, rest_range.consume("Cor. ".unicode_len()));
    }
    if starts_with(src, "cor. ", rest_range) {
        return kind_ok(TheoremKind::Corollary, rest_range.consume("cor. ".unicode_len()));
    }
    if starts_with(src, "Definition. ", rest_range) {
        return kind_ok(TheoremKind::Definition, rest_range.consume("Definition. ".unicode_len()));
    }
    if starts_with(src, "definition. ", rest_range) {
        return kind_ok(TheoremKind::Definition, rest_range.consume("definition. ".unicode_len()));
    }
    if starts_with(src, "Def. ", rest_range) {
        return kind_ok(TheoremKind::Definition, rest_range.consume("Def. ".unicode_len()));
    }
    if starts_with(src, "def. ", rest_range) {
        return kind_ok(TheoremKind::Definition, rest_range.consume("def. ".unicode_len()));
    }
    if starts_with(src, "Axiom. ", rest_range) {
        return kind_ok(TheoremKind::Axiom, rest_range.consume("Axiom. ".unicode_len()));
    }
    if starts_with(src, "axiom. ", rest_range) {
        return kind_ok(TheoremKind::Axiom, rest_range.consume("axiom. ".unicode_len()));
    }
    if starts_with(src, "Axm. ", rest_range) {
        return kind_ok(TheoremKind::Axiom, rest_range.consume("Axm. ".unicode_len()));
    }
    if starts_with(src, "axm. ", rest_range) {
        return kind_ok(TheoremKind::Axiom, rest_range.consume("axm. ".unicode_len()));
    }
    kind_ok(TheoremKind::ParseError, *rest_range)
}

/// The first line at or after index `i` that is exactly the fence marker.
pub open spec fn spec_fence_close(
    s: Seq<Seq<char>>,
    pat: Seq<char>,
    b: Seq<InlineRange>,
    i: int,
) -> Option<int>
    decreases b.len() - i,
{
    if i < 0 || i >= b.len() {
        None
    } else if spec_match(s, pat, b[i]) {
        Some(i)
    } else {
        spec_fence_close(s, pat, b, i + 1)
    }
}

pub proof fn lemma_fence_close_bounds(
    s: Seq<Seq<char>>,
    pat: Seq<char>,
    b: Seq<InlineRange>,
    i: int,
)
    ensures
        spec_fence_close(s, pat, b, i) matches Some(j) ==> i <= j < b.len() && spec_match(
            s,
            pat,
            b[j],
        ),
    decreases b.len() - i,
{
    if 0 <= i < b.len() && !spec_match(s, pat, b[i]) {
        lemma_fence_close_bounds(s, pat, b, i + 1);
    }
}

fn find_fence_close(src: &Vec<Vec<char>>, range: &BlockRange, fence: &str, from: usize) -> (res:
    Option<usize>)
    requires
        block_wf(lines_view(src), range@),
    ensures
        match res {
            Some(j) => spec_fence_close(lines_view(src), fence@, range@, from as int) == Some(
                j as int,
            ) && from <= j < range@.len(),
            None => spec_fence_close(lines_view(src), fence@, range@, from as int) is None,
        },
{
    let ghost s = lines_view(src);
    let n: usize = range.len();
    let mut i: usize = from;
    while i < n
        invariant
            s == lines_view(src),
            block_wf(s, range@),
            n == range@.len(),
            from <= i,
            spec_fence_close(s, fence@, range@, from as int) == spec_fence_close(
                s,
                fence@,
                range@,
                i as int,
            ),
        decreases n - i,
    {
        if match_(src, fence, &range[i]) {
            return Some(i);
        }
        i = i + 1;
    }
    None
}

/// Whether a fenced block (code or math) starts at the front of `b`:
/// the start line carries the fence, and some later line is exactly it.
pub open spec fn spec_fenced_matches(
    s: Seq<Seq<char>>,
    b: Seq<InlineRange>,
    pat: Seq<char>,
    exact_start: bool,
) -> bool {
    &&& b.len() > 0
    &&& if exact_start {
        spec_match(s, pat, b[0])
    } else {
        spec_starts_with(s, pat, b[0])
    }
    &&& spec_fence_close(s, pat, b, 1) is Some
}

/// Split off a fenced block: the verbatim body lines between the start
/// fence and the first line that is exactly the fence marker.
fn parse_fenced(src: &Vec<Vec<char>>, range: BlockRange, fence: &str, exact_start: bool) -> (res:
    (Option<BlockRange>, BlockRange))
    requires
        block_wf(lines_view(src), range@),
    ensures
        ({
            let s = lines_view(src);
            &&& if spec_fenced_matches(s, range@, fence@, exact_start) {
                let j = spec_fence_close(s, fence@, range@, 1)->Some_0;
                &&& res.0 matches Some(content) && content@ =~= range@.subrange(1, j)
                &&& res.1@ =~= range@.skip(j + 1)
                &&& block_weight(res.1@) < block_weight(range@)
            } else {
                res.0 is None && res.1@ =~= range@
            }
            &&& block_wf(s, res.1@)
            &&& res.0 matches Some(content) ==> block_wf(s, content@)
        }),
{
    let ghost s = lines_view(src);
    let ghost b = range@;
    let started: bool = match front_line(&range) {
        Some(line) => if exact_start {
            match_(src, fence, &line)
        } else {
            starts_with(src, fence, &line)
        },
        None => false,
    };
    if !started {
        return (None, range);
    }
    let j: usize = match find_fence_close(src, &range, fence, 1) {
        Some(j) => j,
        None => {
            return (None, range);
        },
    };
    let mut rest = range;
    let _ = rest.pop_front();
    let mut content: BlockRange = VecDeque::new();
    let mut k: usize = 1;
    while k < j
        invariant
            s == lines_view(src),
            block_wf(s, b),
            1 <= k <= j < b.len(),
            rest@ =~= b.skip(k as int),
            content@ =~= b.subrange(1, k as int),
        decreases j - k,
    {
        let line = rest.pop_front().unwrap();
        content.push_back(line);
        k = k + 1;
        proof {
            assert(rest@ =~= b.skip(k as int));
            assert(content@ =~= b.subrange(1, k as int));
        }
    }
    let _ = rest.pop_front();
    proof {
        assert(rest@ =~= b.skip(j + 1));
        lemma_weight_skip_lt(b, j + 1);
    }
    (Some(content), rest)
}

/// A code block: a line starting with the fence, verbatim body lines, and a
/// line that is exactly the fence.  A missing closing fence is a failure of
/// this alternative.
pub fn parse_code_block_element(src: &Vec<Vec<char>>, rest_range: BlockRange) -> (r: ParseResult<
    BlockElement,
    BlockRange,
>)
    requires
        block_wf(lines_view(src), rest_range@),
    ensures
        r.errors.len() == 0 && r.warnings.len() == 0,
        block_wf(lines_view(src), r.rest_range@),
        ({
            let s = lines_view(src);
            if spec_fenced_matches(s, rest_range@, "```"@, false) {
                let j = spec_fence_close(s, "```"@, rest_range@, 1)->Some_0;
                &&& r.value matches BlockElement::Code { lines } && lines@ =~= rest_range@.subrange(
                    1,
                    j,
                )
                &&& r.rest_range@ =~= rest_range@.skip(j + 1)
                &&& block_weight(r.rest_range@) < block_weight(rest_range@)
            } else {
                r.value matches BlockElement::ParseError && r.rest_range@ =~= rest_range@
            }
        }),
{
    match parse_fenced(src, rest_range, "```", false) {
        (Some(content), rest) => ParseResult {
            value: BlockElement::Code { lines: content },
            errors: Vec::new(),
            warnings: Vec::new(),
            rest_range: rest,
        },
        (None, rest) => ParseResult {
            value: BlockElement::ParseError,
            errors: Vec::new(),
            warnings: Vec::new(),
            rest_range: rest,
        },
    }
}

/// A math block: fenced by lines that are exactly `$$`.
pub fn parse_math_block_element(src: &Vec<Vec<char>>, rest_range: BlockRange) -> (r: ParseResult<
    BlockElement,
    BlockRange,
>)
    requires
        block_wf(lines_view(src), rest_range@),
    ensures
        r.errors.len() == 0 && r.warnings.len() == 0,
        block_wf(lines_view(src), r.rest_range@),
        ({
            let s = lines_view(src);
            if spec_fenced_matches(s, rest_range@, "$$"@, true) {
                let j = spec_fence_close(s, "$$"@, rest_range@, 1)->Some_0;
                &&& r.value matches BlockElement::Math { lines } && lines@ =~= rest_range@.subrange(
                    1,
                    j,
                )
                &&& r.rest_range@ =~= rest_range@.skip(j + 1)
                &&& block_weight(r.rest_range@) < block_weight(rest_range@)
            } else {
                r.value matches BlockElement::ParseError && r.rest_range@ =~= rest_range@
            }
        }),
{
    match parse_fenced(src, rest_range, "$$", true) {
        (Some(content), rest) => ParseResult {
            value: BlockElement::Math { lines: content },
            errors: Vec::new(),
            warnings: Vec::new(),
            rest_range: rest,
        },
        (None, rest) => ParseResult {
            value: BlockElement::ParseError,
            errors: Vec::new(),
            warnings: Vec::new(),
            rest_range: rest,
        },
    }
}

/// Where the inline content of a heading line begins: after the run of `#`
/// marks and the spaces that follow them.
pub open spec fn spec_heading_content_start(s: Seq<Seq<char>>, line: InlineRange) -> InlineRange {
    let level = spec_count_prefix_char(s, line, '#');
    let after_marks = spec_consume(line, level);
    spec_consume(after_marks, spec_count_prefix_char(s, after_marks, ' '))
}

/// A heading: one line of one-or-more `#`, then inline content; consumes
/// exactly one line.
pub fn parse_heading_block_element(src: &Vec<Vec<char>>, rest_range: BlockRange) -> (r:
    ParseResult<BlockElement, BlockRange>)
    requires
        block_wf(lines_view(src), rest_range@),
    ensures
        r.errors.len() == 0 && r.warnings.len() == 0,
        block_wf(lines_view(src), r.rest_range@),
        ({
            let s = lines_view(src);
            if rest_range@.len() > 0 && spec_starts_with(s, "#"@, rest_range@[0]) {
                &&& r.value matches BlockElement::Heading { level, content } && level as int
                    == spec_count_prefix_char(s, rest_range@[0], '#') && ies_view(content@)
                    == spec_inlines(s, spec_heading_content_start(s, rest_range@[0]))
                &&& r.rest_range@ =~= rest_range@.skip(1)
                &&& block_weight(r.rest_range@) < block_weight(rest_range@)
            } else {
                r.value matches BlockElement::ParseError && r.rest_range@ =~= rest_range@
            }
        }),
{
    let ghost s = lines_view(src);
    let ghost b = rest_range@;
    let started: bool = match front_line(&rest_range) {
        Some(line) => starts_with(src, "#", &line),
        None => false,
    };
    if !started {
        return ParseResult {
            value: BlockElement::ParseError,
            errors: Vec::new(),
            warnings: Vec::new(),
            rest_range,
        };
    }
    let mut rest = rest_range;
    let line = rest.pop_front().unwrap();
    let level: usize = count_prefix_char(src, &line, '#');
    let after_marks: InlineRange = line.consume(level);
    let spaces: usize = count_prefix_char(src, &after_marks, ' ');
    let content_range: InlineRange = after_marks.consume(spaces);
    let inline_result = parse_inline_elements(src, content_range);
    proof {
        lemma_weight_skip_lt(b, 1);
    }
    ParseResult {
        value: BlockElement::Heading { level, content: inline_result.value },
        errors: Vec::new(),
        warnings: Vec::new(),
        rest_range: rest,
    }
}

/// Whether a derivation starts at the front of `b`: after the lifted
/// premises region, the next line begins with three or more dashes.
pub open spec fn spec_deriv_matches(s: Seq<Seq<char>>, b: Seq<InlineRange>) -> bool {
    let k1 = spec_lift_count(s, "  "@, b);
    k1 < b.len() && spec_count_prefix_char(s, b[k1], '-') >= 3
}

/// Where the rule name on a rule line begins: after the run of dashes and
/// the spaces that follow them.
pub open spec fn spec_rule_name_start(s: Seq<Seq<char>>, line: InlineRange) -> InlineRange {
    let dashes = spec_count_prefix_char(s, line, '-');
    let after_dashes = spec_consume(line, dashes);
    spec_consume(after_dashes, spec_count_prefix_char(s, after_dashes, ' '))
}

/// The inline parses of a run of lines, concatenated.
pub open spec fn spec_concat_inlines(s: Seq<Seq<char>>, lines: Seq<InlineRange>) -> Seq<
    InlineModel,
>
    decreases lines.len(),
{
    if lines.len() == 0 {
        Seq::empty()
    } else {
        spec_inlines(s, lines[0]) + spec_concat_inlines(s, lines.drop_first())
    }
}

pub proof fn lemma_concat_inlines_take_step(s: Seq<Seq<char>>, lines: Seq<InlineRange>, i: int)
    requires
        1 <= i <= lines.len(),
    ensures
        spec_concat_inlines(s, lines.take(i)) =~= spec_concat_inlines(s, lines.take(i - 1))
            + spec_inlines(s, lines[i - 1]),
    decreases i,
{
    if i == 1 {
        assert(lines.take(1).drop_first() =~= Seq::<InlineRange>::empty());
        assert(lines.take(0) =~= Seq::<InlineRange>::empty());
        assert(lines.take(1)[0] == lines[0]);
    } else {
        lemma_concat_inlines_take_step(s, lines.drop_first(), i - 1);
        assert(lines.take(i).drop_first() =~= lines.drop_first().take(i - 1));
        assert(lines.take(i - 1).drop_first() =~= lines.drop_first().take(i - 2));
        assert(lines.take(i)[0] == lines[0]);
        assert(lines.take(i - 1)[0] == lines[0]);
        assert(lines.drop_first()[i - 2] == lines[i - 1]);
        assert((spec_inlines(s, lines[0]) + (spec_concat_inlines(s, lines.drop_first().take(i - 2))
            + spec_inlines(s, lines[i - 1]))) =~= ((spec_inlines(s, lines[0])
            + spec_concat_inlines(s, lines.drop_first().take(i - 2))) + spec_inlines(
            s,
            lines[i - 1],
        )));
    }
}

/// Non-consuming lookahead for `spec_deriv_matches`.
pub fn derivation_matches_at(src: &Vec<Vec<char>>, range: &BlockRange) -> (b: bool)
    requires
        block_wf(lines_view(src), range@),
    ensures
        b == spec_deriv_matches(lines_view(src), range@),
{
    let ghost s = lines_view(src);
    let n: usize = range.len();
    let mut i: usize = 0;
    while i < n && starts_with(src, "  ", &range[i])
        invariant
            s == lines_view(src),
            block_wf(s, range@),
            n == range@.len(),
            0 <= i <= n,
            forall|j: int| 0 <= j < i ==> spec_starts_with(s, "  "@, #[trigger] range@[j]),
        decreases n - i,
    {
        i = i + 1;
    }
    proof {
        lemma_lift_count_from_prefix(s, "  "@, range@, i as int);
    }
    if i < n {
        let dashes = count_prefix_char(src, &range[i], '-');
        dashes >= 3
    } else {
        false
    }
}

/// The derivation parser: fully speculative.  The premises region is the
/// Indent-Lifted run at the front; each premise is a nested derivation or a
/// single inline-parsed leaf line.  The next line must carry three or more
/// dashes (the rule line, with an optional rule name after the dashes);
/// otherwise the whole construct reports no match and the range comes back
/// untouched.  The conclusion is the Indent-Lifted run after the rule line,
/// or, when nothing is lifted, the single non-blank line that follows.
#[verifier::loop_isolation(false)]
pub fn parse_derivation_block_element(src: &Vec<Vec<char>>, rest_range: BlockRange) -> (r:
    ParseResult<Option<Derivation>, BlockRange>)
    requires
        block_wf(lines_view(src), rest_range@),
    ensures
        r.errors.len() == 0 && r.warnings.len() == 0,
        block_wf(lines_view(src), r.rest_range@),
        ({
            let s = lines_view(src);
            let b = rest_range@;
            if spec_deriv_matches(s, b) {
                &&& r.value matches Some(d) && (d matches Derivation::InferenceRule {
                    premises,
                    conclusion,
                    rule_name,
                })
                &&& deriv_view(r.value->Some_0) =~= spec_derivation_model(s, b)->Some_0.0
                &&& r.rest_range@ =~= spec_derivation_model(s, b)->Some_0.1
                &&& block_weight(r.rest_range@) < block_weight(b)
            } else {
                // A construct without a qualifying rule line is a full
                // non-match: the caller sees the original, unconsumed range.
                r.value is None && r.rest_range@ =~= b
            }
        }),
    decreases block_weight(rest_range@), 0int,
{
    let ghost s = lines_view(src);
    let ghost b = rest_range@;
    if !derivation_matches_at(src, &rest_range) {
        return ParseResult {
            value: None,
            errors: Vec::new(),
            warnings: Vec::new(),
            rest_range,
        };
    }
    proof {
        lemma_lift_count_bounds(s, "  "@, b);
    }
    let ghost k1 = spec_lift_count(s, "  "@, b);
    let premises_lift = lift_block_range(src, "  ", rest_range);
    let mut premises_rest: BlockRange = premises_lift.value;
    let mut rest: BlockRange = premises_lift.rest_range;
    let ghost lifted0 = premises_rest@;
    proof {
        reveal_strlit("  ");
        lemma_lift_count_bounds(s, "  "@, b);
        if k1 >= 1 {
            assert(forall|i: int|
                0 <= i < k1 ==> (#[trigger] b[i]).start_column + 2 <= b[i].end_column) by {
                assert(forall|i: int|
                    0 <= i < k1 ==> spec_starts_with(s, "  "@, #[trigger] b[i]));
            }
            lemma_lifted_weight(b, k1, 2);
            lemma_block_weight_split(b, k1);
            lemma_block_weight_bounds(b.skip(k1));
            assert(block_weight(lifted0) < block_weight(b));
        }
        lemma_block_weight_bounds(lifted0);
    }
    let mut premises: Vec<Derivation> = Vec::new();
    proof {
        assert(derivs_view(premises@) =~= Seq::<DerivationModel>::empty());
        assert(spec_premises_model(s, lifted0) =~= derivs_view(premises@) + spec_premises_model(
            s,
            premises_rest@,
        ));
    }
    while premises_rest.len() > 0
        invariant
            s == lines_view(src),
            block_wf(s, premises_rest@),
            premises_rest@.len() > 0 ==> block_weight(premises_rest@) <= block_weight(lifted0)
                && block_weight(lifted0) < block_weight(b),
            block_weight(premises_rest@) >= 0,
            spec_premises_model(s, lifted0) =~= derivs_view(premises@) + spec_premises_model(
                s,
                premises_rest@,
            ),
        decreases block_weight(premises_rest@),
    {
        proof {
            lemma_block_weight_bounds(premises_rest@);
        }
        let ghost p_old = premises_rest@;
        let ghost premises_old = premises@;
        let premise_result = parse_derivation_block_element(src, premises_rest);
        premises_rest = premise_result.rest_range;
        match premise_result.value {
            Some(premise) => {
                let ghost pushed = premise;
                premises.push(premise);
                proof {
                    lemma_block_weight_bounds(premises_rest@);
                    assert(spec_premises_model(s, p_old) =~= seq![deriv_view(pushed)]
                        + spec_premises_model(s, premises_rest@));
                    lemma_derivs_view_push(premises_old, pushed);
                }
            },
            None => {
                proof {
                    lemma_weight_skip_lt(premises_rest@, 1);
                }
                let line = premises_rest.pop_front().unwrap();
                let inline_result = parse_inline_elements(src, line);
                let ghost leaf_content = inline_result.value@;
                let leaf = Derivation::Leaf(inline_result.value);
                let ghost pushed = leaf;
                premises.push(leaf);
                proof {
                    assert(premises_rest@ =~= p_old.drop_first());
                    assert(deriv_view(pushed) == (DerivationModel::Leaf {
                        content: ies_view(leaf_content),
                    }));
                    assert(spec_premises_model(s, p_old) =~= seq![deriv_view(pushed)]
                        + spec_premises_model(s, premises_rest@));
                    lemma_derivs_view_push(premises_old, pushed);
                }
            },
        }
        proof {
            lemma_block_weight_bounds(premises_rest@);
        }
    }
    proof {
        assert(spec_premises_model(s, lifted0) =~= derivs_view(premises@));
    }
    // The rule line: three or more dashes, then an optional rule name.
    proof {
        assert(rest@ =~= b.skip(k1));
        assert(rest@.len() > 0);
        assert(rest@[0] == b[k1]);
    }
    let line = rest.pop_front().unwrap();
    let dashes: usize = count_prefix_char(src, &line, '-');
    let after_dashes: InlineRange = line.consume(dashes);
    let spaces: usize = count_prefix_char(src, &after_dashes, ' ');
    let rule_name_range: InlineRange = after_dashes.consume(spaces);
    let rule_name_result = parse_inline_elements(src, rule_name_range);
    proof {
        assert(rest@ =~= b.skip(k1 + 1));
    }
    // The conclusion.
    let ghost k2 = spec_lift_count(s, "  "@, b.skip(k1 + 1));
    let conclusion_lift = lift_block_range(src, "  ", rest);
    let mut conclusion_lines: BlockRange = conclusion_lift.value;
    rest = conclusion_lift.rest_range;
    proof {
        lemma_lift_count_bounds(s, "  "@, b.skip(k1 + 1));
    }
    let mut conclusion: Vec<crate::document::InlineElement> = Vec::new();
    if conclusion_lines.len() > 0 {
        let ghost concl0 = conclusion_lines@;
        let mut done: usize = 0;
        let n: usize = conclusion_lines.len();
        while done < n
            invariant
                s == lines_view(src),
                block_wf(s, concl0),
                n == concl0.len(),
                0 <= done <= n,
                conclusion_lines@ =~= concl0.skip(done as int),
                ies_view(conclusion@) =~= spec_concat_inlines(s, concl0.take(done as int)),
            decreases n - done,
        {
            let cline = conclusion_lines.pop_front().unwrap();
            let mut inline_result = parse_inline_elements(src, cline);
            let ghost prev_conclusion = conclusion@;
            let ghost piece = inline_result.value@;
            conclusion.append(&mut inline_result.value);
            done = done + 1;
            proof {
                lemma_concat_inlines_take_step(s, concl0, done as int);
                assert(ies_view(prev_conclusion + piece) =~= ies_view(prev_conclusion) + ies_view(
                    piece,
                ));
                assert(conclusion@ =~= prev_conclusion + piece);
            }
        }
        proof {
            assert(concl0.take(n as int) =~= concl0);
        }
    } else {
        let take_one: bool = match front_line(&rest) {
            Some(line0) => !line0.is_empty(),
            None => false,
        };
        if take_one {
            let cline = rest.pop_front().unwrap();
            let inline_result = parse_inline_elements(src, cline);
            conclusion = inline_result.value;
            proof {
                assert(rest@ =~= b.skip(k1 + 2));
                lemma_weight_skip_lt(b, k1 + 2);
            }
        }
    }
    proof {
        lemma_weight_skip_lt(b, k1 + 1);
        lemma_lift_count_bounds(s, "  "@, b.skip(k1 + 1));
        assert(line == b[k1]);
        assert(rule_name_range == spec_rule_name_start(s, b[k1]));
        assert(ies_view(rule_name_result.value@) == spec_inlines(s, spec_rule_name_start(s, b[k1])));
        if k2 >= 1 {
            assert(rest@ =~= b.skip(k1 + 1 + k2)) by {
                assert(rest@ =~= b.skip(k1 + 1).skip(k2));
            }
            lemma_weight_skip_lt(b, k1 + 1 + k2);
            assert(ies_view(conclusion@) == spec_concat_inlines(
                s,
                spec_lifted(b.skip(k1 + 1), k2, 2),
            ));
        } else {
            if k1 + 1 < b.len() && range_len(b[k1 + 1]) > 0 {
                assert(ies_view(conclusion@) == spec_inlines(s, b[k1 + 1]));
                assert(rest@ =~= b.skip(k1 + 2));
            } else {
                assert(conclusion@.len() == 0);
                assert(rest@ =~= b.skip(k1 + 1));
            }
        }
    }
    let ghost premises_seq = premises@;
    let ghost conclusion_seq = conclusion@;
    let ghost rule_name_seq = rule_name_result.value@;
    let value = Derivation::InferenceRule {
        premises,
        conclusion,
        rule_name: rule_name_result.value,
    };
    proof {
        reveal_strlit("  ");
        assert(lifted0 =~= spec_lifted(b, k1, 2));
        lemma_deriv_view_unfold(value);
        let m = spec_derivation_model(s, b)->Some_0;
        assert(m.0 matches DerivationModel::InferenceRule { premises: mp, conclusion: mc, rule_name: mr }
            ==> mp == spec_premises_model(s, spec_lifted(b, k1, 2)));
        assert(deriv_view(value) =~= m.0);
    }
    ParseResult {
        value: Some(value),
        errors: Vec::new(),
        warnings: Vec::new(),
        rest_range: rest,
    }
}

/// Round-trip of a fenced block: the body lines of a recognized code or
/// math block are the input's line spans between the fences, kept verbatim,
/// so re-serializing each of them reproduces the original source line
/// exactly — no inline transformation is applied.  (The recognizers return
/// `b.subrange(1, j)` itself, so this holds of what they produce.)
pub proof fn lemma_fenced_round_trip(
    s: Seq<Seq<char>>,
    b: Seq<InlineRange>,
    pat: Seq<char>,
    exact_start: bool,
)
    requires
        block_wf(s, b),
        spec_fenced_matches(s, b, pat, exact_start),
        forall|i: int|
            0 <= i < b.len() ==> (#[trigger] b[i]).start_column == 0 && b[i].end_column == s[b[i].line as int].len(),
    ensures
        ({
            let j = spec_fence_close(s, pat, b, 1)->Some_0;
            forall|i: int|
                0 <= i < j - 1 ==> crate::document::spec_verbatim_inline(
                    s,
                    #[trigger] b.subrange(1, j)[i],
                ) =~= s[b[1 + i].line as int]
        }),
{
    lemma_fence_close_bounds(s, pat, b, 1);
    let j = spec_fence_close(s, pat, b, 1)->Some_0;
    assert forall|i: int| 0 <= i < j - 1 implies crate::document::spec_verbatim_inline(
        s,
        #[trigger] b.subrange(1, j)[i],
    ) =~= s[b[1 + i].line as int] by {
        assert(b.subrange(1, j)[i] == b[1 + i]);
    }
}

/// Whether a theorem block starts at the front of `b`: the front line
/// carries a theorem mark and the Indent-Lifted body is non-empty.  An
/// empty lifted body is a failure of this alternative.
pub open spec fn spec_theorem_matches(s: Seq<Seq<char>>, b: Seq<InlineRange>) -> bool {
    &&& b.len() > 0
    &&& spec_theorem_mark(s, b[0]) is Some
    &&& spec_lift_count(s, "  "@, b.skip(1)) >= 1
}

/// Non-consuming lookahead for `spec_theorem_matches`.
pub fn theorem_matches_at(src: &Vec<Vec<char>>, range: &BlockRange) -> (b: bool)
    requires
        block_wf(lines_view(src), range@),
    ensures
        b == spec_theorem_matches(lines_view(src), range@),
{
    let ghost s = lines_view(src);
    if range.len() == 0 {
        return false;
    }
    let kind_result = parse_theorem_kind(src, &range[0]);
    if kind_result.value == TheoremKind::ParseError {
        return false;
    }
    let has_body: bool = range.len() >= 2 && starts_with(src, "  ", &range[1]);
    proof {
        let tail = range@.skip(1);
        if has_body {
            assert(tail[0] == range@[1]);
            lemma_lift_count_bounds(s, "  "@, tail.drop_first());
            assert(spec_lift_count(s, "  "@, tail) >= 1);
        } else {
            if tail.len() > 0 {
                assert(tail[0] == range@[1]);
                assert(!spec_starts_with(s, "  "@, tail[0]));
            }
            assert(spec_lift_count(s, "  "@, tail) == 0);
        }
    }
    has_body
}

/// A theorem block: a line from the theorem-mark table (the remainder of the
/// line is the inline title), with the Indent-Lifted body recursively
/// block-parsed as the content.
pub fn parse_theorem_block_element(src: &Vec<Vec<char>>, rest_range: BlockRange) -> (r:
    ParseResult<BlockElement, BlockRange>)
    requires
        block_wf(lines_view(src), rest_range@),
    ensures
        r.errors.len() == 0 && r.warnings.len() == 0,
        block_wf(lines_view(src), r.rest_range@),
        ({
            let s = lines_view(src);
            let b = rest_range@;
            if spec_theorem_matches(s, b) {
                let mark = spec_theorem_mark(s, b[0])->Some_0;
                let k = spec_lift_count(s, "  "@, b.skip(1));
                &&& r.value matches BlockElement::Theorem { kind, title, content } && kind
                    == mark.0 && ies_view(title@) == spec_inlines(
                    s,
                    spec_consume(b[0], mark.1),
                ) && bes_view(content@) =~= spec_blocks_model(
                    s,
                    spec_lifted(b.skip(1), k, 2),
                ) && (forall|i: int|
                    0 <= i < content@.len() ==> !((#[trigger] content@[i])
                        matches BlockElement::ParseError))
                &&& r.rest_range@ =~= b.skip(1 + k)
                &&& block_weight(r.rest_range@) < block_weight(b)
            } else {
                r.value matches BlockElement::ParseError && r.rest_range@ =~= b
            }
        }),
    decreases block_weight(rest_range@), 0int,
{
    let ghost s = lines_view(src);
    let ghost b = rest_range@;
    if !theorem_matches_at(src, &rest_range) {
        return ParseResult {
            value: BlockElement::ParseError,
            errors: Vec::new(),
            warnings: Vec::new(),
            rest_range,
        };
    }
    let mut rest = rest_range;
    let line = rest.pop_front().unwrap();
    let kind_result = parse_theorem_kind(src, &line);
    let title_result = parse_inline_elements(src, kind_result.rest_range);
    let ghost k = spec_lift_count(s, "  "@, b.skip(1));
    let body_lift = lift_block_range(src, "  ", rest);
    rest = body_lift.rest_range;
    proof {
        reveal_strlit("  ");
        lemma_lift_count_bounds(s, "  "@, b.skip(1));
        assert(forall|i: int|
            0 <= i < k ==> (#[trigger] b.skip(1)[i]).start_column + 2 <= b.skip(
                1,
            )[i].end_column) by {
            assert(forall|i: int|
                0 <= i < k ==> spec_starts_with(s, "  "@, #[trigger] b.skip(1)[i]));
        }
        lemma_lifted_weight(b.skip(1), k, 2);
        lemma_block_weight_split(b.skip(1), k);
        lemma_block_weight_bounds(b.skip(1).skip(k));
        lemma_weight_skip_lt(b, 1);
        assert(block_weight(body_lift.value@) < block_weight(b));
        lemma_block_weight_bounds(body_lift.value@);
    }
    let ghost body_lines = body_lift.value@;
    let inner_result = parse_block_elements(src, body_lift.value);
    proof {
        assert(rest@ =~= b.skip(1 + k)) by {
            assert(rest@ =~= b.skip(1).skip(k));
        }
        lemma_weight_skip_lt(b, 1 + k);
        assert(body_lines =~= spec_lifted(b.skip(1), k, 2));
    }
    ParseResult {
        value: BlockElement::Theorem {
            kind: kind_result.value,
            title: title_result.value,
            content: inner_result.value,
        },
        errors: Vec::new(),
        warnings: Vec::new(),
        rest_range: rest,
    }
}

/// A proof block: a line that is exactly `Proof.` or `proof.`, with the
/// Indent-Lifted body recursively block-parsed.
pub fn parse_proof_block_element(src: &Vec<Vec<char>>, rest_range: BlockRange) -> (r: ParseResult<
    BlockElement,
    BlockRange,
>)
    requires
        block_wf(lines_view(src), rest_range@),
    ensures
        r.errors.len() == 0 && r.warnings.len() == 0,
        block_wf(lines_view(src), r.rest_range@),
        ({
            let s = lines_view(src);
            let b = rest_range@;
            if b.len() > 0 && (spec_match(s, "Proof."@, b[0]) || spec_match(s, "proof."@, b[0])) {
                let k = spec_lift_count(s, "  "@, b.skip(1));
                &&& r.value matches BlockElement::Proof { content } && bes_view(content@)
                    =~= spec_blocks_model(s, spec_lifted(b.skip(1), k, 2)) && (forall|i: int|
                    0 <= i < content@.len() ==> !((#[trigger] content@[i])
                        matches BlockElement::ParseError))
                &&& r.rest_range@ =~= b.skip(1 + k)
                &&& block_weight(r.rest_range@) < block_weight(b)
            } else {
                r.value matches BlockElement::ParseError && r.rest_range@ =~= b
            }
        }),
    decreases block_weight(rest_range@), 0int,
{
    let ghost s = lines_view(src);
    let ghost b = rest_range@;
    let started: bool = match front_line(&rest_range) {
        Some(line) => match_(src, "Proof.", &line) || match_(src, "proof.", &line),
        None => false,
    };
    if !started {
        return ParseResult {
            value: BlockElement::ParseError,
            errors: Vec::new(),
            warnings: Vec::new(),
            rest_range,
        };
    }
    let mut rest = rest_range;
    let line = rest.pop_front().unwrap();
    let ghost k = spec_lift_count(s, "  "@, b.skip(1));
    let body_lift = lift_block_range(src, "  ", rest);
    rest = body_lift.rest_range;
    proof {
        reveal_strlit("  ");
        lemma_lift_count_bounds(s, "  "@, b.skip(1));
        assert(forall|i: int|
            0 <= i < k ==> (#[trigger] b.skip(1)[i]).start_column + 2 <= b.skip(
                1,
            )[i].end_column) by {
            assert(forall|i: int|
                0 <= i < k ==> spec_starts_with(s, "  "@, #[trigger] b.skip(1)[i]));
        }
        lemma_lifted_weight(b.skip(1), k, 2);
        lemma_block_weight_split(b.skip(1), k);
        lemma_block_weight_bounds(b.skip(1).skip(k));
        lemma_weight_skip_lt(b, 1);
        assert(block_weight(body_lift.value@) < block_weight(b));
        lemma_block_weight_bounds(body_lift.value@);
    }
    let ghost body_lines = body_lift.value@;
    let inner_result = parse_block_elements(src, body_lift.value);
    proof {
        assert(rest@ =~= b.skip(1 + k)) by {
            assert(rest@ =~= b.skip(1).skip(k));
        }
        lemma_weight_skip_lt(b, 1 + k);
        assert(body_lines =~= spec_lifted(b.skip(1), k, 2));
    }
    ParseResult {
        value: BlockElement::Proof { content: inner_result.value },
        errors: Vec::new(),
        warnings: Vec::new(),
        rest_range: rest,
    }
}

/// A blockquote: the run of lines prefixed `"> "`, the prefix stripped from
/// each, the inner lines recursively block-parsed.
pub fn parse_blockquote_element(src: &Vec<Vec<char>>, rest_range: BlockRange) -> (r: ParseResult<
    BlockElement,
    BlockRange,
>)
    requires
        block_wf(lines_view(src), rest_range@),
    ensures
        r.errors.len() == 0 && r.warnings.len() == 0,
        block_wf(lines_view(src), r.rest_range@),
        ({
            let s = lines_view(src);
            let b = rest_range@;
            if b.len() > 0 && spec_starts_with(s, "> "@, b[0]) {
                let m = spec_lift_count(s, "> "@, b);
                &&& m >= 1
                &&& r.value matches BlockElement::Blockquote { inner } && bes_view(inner@)
                    =~= spec_blocks_model(s, spec_lifted(b, m, 2)) && (forall|i: int|
                    0 <= i < inner@.len() ==> !((#[trigger] inner@[i])
                        matches BlockElement::ParseError))
                &&& r.rest_range@ =~= b.skip(m)
                &&& block_weight(r.rest_range@) < block_weight(b)
            } else {
                r.value matches BlockElement::ParseError && r.rest_range@ =~= b
            }
        }),
    decreases block_weight(rest_range@), 0int,
{
    let ghost s = lines_view(src);
    let ghost b = rest_range@;
    let started: bool = match front_line(&rest_range) {
        Some(line) => starts_with(src, "> ", &line),
        None => false,
    };
    if !started {
        return ParseResult {
            value: BlockElement::ParseError,
            errors: Vec::new(),
            warnings: Vec::new(),
            rest_range,
        };
    }
    let ghost m = spec_lift_count(s, "> "@, b);
    let lift = lift_block_range(src, "> ", rest_range);
    proof {
        reveal_strlit("> ");
        lemma_lift_count_bounds(s, "> "@, b);
        assert(forall|i: int|
            0 <= i < m ==> (#[trigger] b[i]).start_column + 2 <= b[i].end_column) by {
            assert(forall|i: int| 0 <= i < m ==> spec_starts_with(s, "> "@, #[trigger] b[i]));
        }
        assert(m >= 1) by {
            lemma_lift_count_bounds(s, "> "@, b.drop_first());
        }
        lemma_lifted_weight(b, m, 2);
        lemma_block_weight_split(b, m);
        lemma_block_weight_bounds(b.skip(m));
        lemma_weight_skip_lt(b, m);
        assert(block_weight(lift.value@) < block_weight(b));
        lemma_block_weight_bounds(lift.value@);
    }
    let ghost inner_lines = lift.value@;
    let inner_result = parse_block_elements(src, lift.value);
    proof {
        assert(inner_lines =~= spec_lifted(b, m, 2));
    }
    ParseResult {
        value: BlockElement::Blockquote { inner: inner_result.value },
        errors: Vec::new(),
        warnings: Vec::new(),
        rest_range: lift.rest_range,
    }
}

/// Number of lines a list starting at the front of `b` consumes: marker
/// lines together with each item's Indent-Lifted continuation lines.
pub open spec fn spec_list_consumed(s: Seq<Seq<char>>, b: Seq<InlineRange>) -> int
    decreases b.len() via spec_list_consumed_dec
{
    if b.len() == 0 || !spec_starts_with(s, "- "@, b[0]) {
        0
    } else {
        let k = spec_lift_count(s, "  "@, b.drop_first());
        if k + 1 <= b.len() {
            (1 + k) + spec_list_consumed(s, b.skip(1 + k))
        } else {
            1 + k
        }
    }
}

#[via_fn]
proof fn spec_list_consumed_dec(s: Seq<Seq<char>>, b: Seq<InlineRange>) {
    if b.len() > 0 {
        lemma_lift_count_bounds(s, "  "@, b.drop_first());
    }
}

/// Number of items of a list starting at the front of `b`.
pub open spec fn spec_list_count(s: Seq<Seq<char>>, b: Seq<InlineRange>) -> int
    decreases b.len() via spec_list_count_dec
{
    if b.len() == 0 || !spec_starts_with(s, "- "@, b[0]) {
        0
    } else {
        let k = spec_lift_count(s, "  "@, b.drop_first());
        if k + 1 <= b.len() {
            1 + spec_list_count(s, b.skip(1 + k))
        } else {
            1
        }
    }
}

#[via_fn]
proof fn spec_list_count_dec(s: Seq<Seq<char>>, b: Seq<InlineRange>) {
    if b.len() > 0 {
        lemma_lift_count_bounds(s, "  "@, b.drop_first());
    }
}

pub proof fn lemma_list_consumed_bounds(s: Seq<Seq<char>>, b: Seq<InlineRange>)
    ensures
        0 <= spec_list_consumed(s, b) <= b.len(),
        spec_list_count(s, b) >= 0,
        b.len() > 0 && spec_starts_with(s, "- "@, b[0]) ==> spec_list_consumed(s, b) >= 1
            && spec_list_count(s, b) >= 1,
    decreases b.len(),
{
    if b.len() > 0 && spec_starts_with(s, "- "@, b[0]) {
        lemma_lift_count_bounds(s, "  "@, b.drop_first());
        let k = spec_lift_count(s, "  "@, b.drop_first());
        lemma_list_consumed_bounds(s, b.skip(1 + k));
    }
}

/// A list: consecutive items, each a `"- "` marker line (its remainder the
/// inline top line) followed by an Indent-Lifted run of continuation lines
/// recursively block-parsed; the item run ends at the first non-marker line.
#[verifier::loop_isolation(false)]
pub fn parse_list_block_element(src: &Vec<Vec<char>>, rest_range: BlockRange) -> (r: ParseResult<
    BlockElement,
    BlockRange,
>)
    requires
        block_wf(lines_view(src), rest_range@),
    ensures
        r.errors.len() == 0 && r.warnings.len() == 0,
        block_wf(lines_view(src), r.rest_range@),
        ({
            let s = lines_view(src);
            let b = rest_range@;
            if b.len() > 0 && spec_starts_with(s, "- "@, b[0]) {
                &&& r.value matches BlockElement::List { mark_kind, items } && mark_kind
                    == ListMarkKind::Bullet && items@.len() == spec_list_count(s, b) && lis_view(
                    items@,
                ) =~= spec_list_items_model(s, b)
                &&& r.rest_range@ =~= b.skip(spec_list_consumed(s, b))
                &&& block_weight(r.rest_range@) < block_weight(b)
            } else {
                r.value matches BlockElement::ParseError && r.rest_range@ =~= b
            }
        }),
    decreases block_weight(rest_range@), 0int,
{
    let ghost s = lines_view(src);
    let ghost b = rest_range@;
    let started: bool = match front_line(&rest_range) {
        Some(line) => starts_with(src, "- ", &line),
        None => false,
    };
    if !started {
        return ParseResult {
            value: BlockElement::ParseError,
            errors: Vec::new(),
            warnings: Vec::new(),
            rest_range,
        };
    }
    let mut rest = rest_range;
    let mut items: Vec<ListItem> = Vec::new();
    let ghost mut consumed: int = 0;
    proof {
        lemma_block_weight_bounds(b);
        assert(lis_view(items@) =~= Seq::<ListItemModel>::empty());
    }
    while rest.len() > 0 && starts_with(src, "- ", &rest[0])
        invariant
            block_wf(s, rest@),
            0 <= consumed <= b.len(),
            rest@ =~= b.skip(consumed),
            block_weight(rest@) <= block_weight(b),
            consumed >= 1 ==> block_weight(rest@) < block_weight(b),
            spec_list_consumed(s, b) == consumed + spec_list_consumed(s, rest@),
            spec_list_count(s, b) == items@.len() + spec_list_count(s, rest@),
            spec_list_items_model(s, b) =~= lis_view(items@) + spec_list_items_model(s, rest@),
            items@.len() <= consumed,
        decreases block_weight(rest@),
    {
        let ghost rest0 = rest@;
        proof {
            reveal_strlit("- ");
        }
        let line = rest.pop_front().unwrap();
        let top_line_result = parse_inline_elements(src, line.consume(2));
        let ghost k = spec_lift_count(s, "  "@, rest@);
        let inner_lift = lift_block_range(src, "  ", rest);
        rest = inner_lift.rest_range;
        proof {
            reveal_strlit("  ");
            lemma_lift_count_bounds(s, "  "@, rest0.drop_first());
            assert(forall|i: int|
                0 <= i < k ==> (#[trigger] rest0.drop_first()[i]).start_column + 2
                    <= rest0.drop_first()[i].end_column) by {
                assert(forall|i: int|
                    0 <= i < k ==> spec_starts_with(s, "  "@, #[trigger] rest0.drop_first()[i]));
            }
            lemma_lifted_weight(rest0.drop_first(), k, 2);
            lemma_block_weight_split(rest0.drop_first(), k);
            lemma_block_weight_bounds(rest0.drop_first().skip(k));
            assert(block_weight(rest0.drop_first()) == block_weight(rest0) - line_weight(
                rest0[0],
            ));
            assert(line_weight(rest0[0]) >= 3);
            assert(block_weight(inner_lift.value@) < block_weight(b));
            lemma_block_weight_bounds(inner_lift.value@);
        }
        let ghost inner_lines = inner_lift.value@;
        let ghost items_old = items@;
        let blocks_result = parse_block_elements(src, inner_lift.value);
        let ghost top_seq = top_line_result.value@;
        let ghost blocks_seq = blocks_result.value@;
        let item = ListItem { top_line: top_line_result.value, blocks: blocks_result.value };
        let ghost pushed = item;
        items.push(item);
        proof {
            assert(rest@ =~= rest0.drop_first().skip(k));
            assert(rest@ =~= rest0.skip(1 + k));
            assert(spec_list_consumed(s, rest0) == (1 + k) + spec_list_consumed(
                s,
                rest0.skip(1 + k),
            ));
            assert(spec_list_count(s, rest0) == 1 + spec_list_count(s, rest0.skip(1 + k)));
            assert(inner_lines =~= spec_lifted(rest0.drop_first(), k, 2));
            assert(list_item_view(pushed) =~= (ListItemModel {
                top_line: spec_inlines(s, spec_consume(rest0[0], 2)),
                blocks: spec_blocks_model(s, spec_lifted(rest0.drop_first(), k, 2)),
            }));
            assert(spec_list_items_model(s, rest0) =~= seq![list_item_view(pushed)]
                + spec_list_items_model(s, rest0.skip(1 + k)));
            lemma_lis_view_push(items_old, pushed);
            consumed = consumed + 1 + k;
            assert(rest@ =~= b.skip(consumed)) by {
                assert(rest0 =~= b.skip(consumed - 1 - k));
            }
            lemma_weight_skip_lt(rest0, 1 + k);
            assert(block_weight(rest@) < block_weight(rest0));
        }
    }
    proof {
        assert(spec_list_consumed(s, rest@) == 0);
        assert(spec_list_count(s, rest@) == 0);
        assert(spec_list_items_model(s, rest@) =~= Seq::<ListItemModel>::empty());
    }
    ParseResult {
        value: BlockElement::List { mark_kind: ListMarkKind::Bullet, items },
        errors: Vec::new(),
        warnings: Vec::new(),
        rest_range: rest,
    }
}

/// Where a paragraph ends: at the end of input, at a blank line, or at the
/// start of any other recognized block kind — tested exactly as the
/// recognizers themselves would test it.  A fence marker on the very first
/// line of the paragraph is not treated as a block start, so a lone fence
/// line degrades to paragraph text.
pub open spec fn spec_para_end(
    s: Seq<Seq<char>>,
    head: Option<InlineRange>,
    b: Seq<InlineRange>,
) -> bool {
    if b.len() == 0 {
        true
    } else {
        ||| spec_deriv_matches(s, b)
        ||| spec_starts_with(s, "#"@, b[0])
        ||| range_len(b[0]) == 0
        ||| (match head {
            Some(h) => h != b[0] && (spec_starts_with(s, "```"@, b[0]) || spec_starts_with(
                s,
                "$$"@,
                b[0],
            )),
            None => false,
        })
        ||| spec_theorem_matches(s, b)
        ||| spec_match(s, "Proof."@, b[0])
        ||| spec_match(s, "proof."@, b[0])
        ||| spec_starts_with(s, "- "@, b[0])
        ||| spec_starts_with(s, "> "@, b[0])
    }
}

/// Number of lines the paragraph starting at the front of `b` consumes.
pub open spec fn spec_para_count(
    s: Seq<Seq<char>>,
    head: Option<InlineRange>,
    b: Seq<InlineRange>,
) -> int
    decreases b.len(),
{
    if spec_para_end(s, head, b) {
        0
    } else {
        1 + spec_para_count(s, head, b.drop_first())
    }
}

pub proof fn lemma_para_count_bounds(
    s: Seq<Seq<char>>,
    head: Option<InlineRange>,
    b: Seq<InlineRange>,
)
    ensures
        0 <= spec_para_count(s, head, b) <= b.len(),
    decreases b.len(),
{
    if !spec_para_end(s, head, b) {
        lemma_para_count_bounds(s, head, b.drop_first());
    }
}

/// Executable test for `spec_para_end`.
pub fn is_paragraph_end(
    src: &Vec<Vec<char>>,
    rest_range: &BlockRange,
    head_line: &Option<InlineRange>,
) -> (b: bool)
    requires
        block_wf(lines_view(src), rest_range@),
    ensures
        b == spec_para_end(lines_view(src), *head_line, rest_range@),
{
    if rest_range.len() == 0 {
        return true;
    }
    if derivation_matches_at(src, rest_range) {
        return true;
    }
    let line: InlineRange = rest_range[0];
    if starts_with(src, "#", &line) || line.is_empty() {
        return true;
    }
    let fence_start: bool = match head_line {
        Some(h) => (h.line != line.line || h.start_column != line.start_column
            || h.end_column != line.end_column) && (starts_with(src, "```", &line) || starts_with(
            src,
            "$$",
            &line,
        )),
        None => false,
    };
    if fence_start {
        return true;
    }
    if theorem_matches_at(src, rest_range) {
        return true;
    }
    match_(src, "Proof.", &line) || match_(src, "proof.", &line) || starts_with(src, "- ", &line)
        || starts_with(src, "> ", &line)
}

/// The unconditional fallback: consume consecutive lines, each independently
/// inline-parsed, until the end of input, a blank line, or the start of any
/// other recognized block kind.
#[verifier::loop_isolation(false)]
pub fn parse_paragraph(src: &Vec<Vec<char>>, rest_range: BlockRange) -> (r: ParseResult<
    BlockElement,
    BlockRange,
>)
    requires
        block_wf(lines_view(src), rest_range@),
    ensures
        r.errors.len() == 0 && r.warnings.len() == 0,
        block_wf(lines_view(src), r.rest_range@),
        ({
            let s = lines_view(src);
            let b = rest_range@;
            let head = if b.len() > 0 {
                Some(b[0])
            } else {
                None
            };
            let n = spec_para_count(s, head, b);
            &&& r.value matches BlockElement::Paragraph { content } && ies_view(content@)
                == spec_concat_inlines(s, b.take(n))
            &&& r.rest_range@ =~= b.skip(n)
            &&& n >= 1 ==> block_weight(r.rest_range@) < block_weight(b)
        }),
{
    let ghost s = lines_view(src);
    let ghost b = rest_range@;
    let head_line: Option<InlineRange> = front_line(&rest_range);
    let ghost head = head_line;
    let mut rest = rest_range;
    let mut inline_elements: Vec<crate::document::InlineElement> = Vec::new();
    let ghost mut i: int = 0;
    proof {
        lemma_block_weight_bounds(b);
    }
    while !is_paragraph_end(src, &rest, &head_line)
        invariant
            block_wf(s, rest@),
            0 <= i <= b.len(),
            rest@ =~= b.skip(i),
            ies_view(inline_elements@) =~= spec_concat_inlines(s, b.take(i)),
            spec_para_count(s, head, b) == i + spec_para_count(s, head, rest@),
            i >= 1 ==> block_weight(rest@) < block_weight(b),
        decreases rest@.len(),
    {
        let ghost rest0 = rest@;
        let line = rest.pop_front().unwrap();
        let mut inline_result = parse_inline_elements(src, line);
        let ghost prev_elements = inline_elements@;
        let ghost piece = inline_result.value@;
        inline_elements.append(&mut inline_result.value);
        proof {
            i = i + 1;
            assert(rest@ =~= b.skip(i));
            assert(b.take(i)[i - 1] == b[i - 1]);
            lemma_concat_inlines_take_step(s, b, i);
            assert(ies_view(prev_elements + piece) =~= ies_view(prev_elements) + ies_view(piece));
            assert(inline_elements@ =~= prev_elements + piece);
            lemma_weight_skip_lt(b, i);
        }
    }
    proof {
        assert(spec_para_count(s, head, rest@) == 0);
    }
    ParseResult {
        value: BlockElement::Paragraph { content: inline_elements },
        errors: Vec::new(),
        warnings: Vec::new(),
        rest_range: rest,
    }
}

/// The block element dispatcher: try Heading, Code, Math, Theorem, Proof,
/// Derivation, List and Blockquote in that order; the first to match wins.
/// If every alternative fails, Paragraph is the unconditional fallback.
/// Whatever matches, at least one whole line is consumed, so repeated
/// dispatch terminates.
pub fn parse_block_element(src: &Vec<Vec<char>>, rest_range: BlockRange) -> (r: ParseResult<
    BlockElement,
    BlockRange,
>)
    requires
        block_wf(lines_view(src), rest_range@),
        rest_range@.len() > 0,
        range_len(rest_range@[0]) > 0,
    ensures
        r.errors.len() == 0 && r.warnings.len() == 0,
        block_wf(lines_view(src), r.rest_range@),
        !(r.value matches BlockElement::ParseError),
        block_weight(r.rest_range@) < block_weight(rest_range@),
        exists|c: int| 1 <= c <= rest_range@.len() && r.rest_range@ =~= rest_range@.skip(c),
        be_view(r.value) =~= spec_block_model(lines_view(src), rest_range@).0,
        r.rest_range@ =~= spec_block_model(lines_view(src), rest_range@).1,
        ({
            // Dispatcher priority: a line that begins with `#` is always a
            // heading, whatever else it could have matched.
            let s = lines_view(src);
            let b = rest_range@;
            spec_starts_with(s, "#"@, b[0]) ==> match r.value {
                BlockElement::Heading { level, content } => level as int == spec_count_prefix_char(
                    s,
                    b[0],
                    '#',
                ) && ies_view(content@) == spec_inlines(s, spec_heading_content_start(s, b[0]))
                    && r.rest_range@ =~= b.skip(1),
                _ => false,
            }
        }),
    decreases block_weight(rest_range@), 1int,
{
    let ghost s = lines_view(src);
    let ghost b = rest_range@;
    let result = parse_heading_block_element(src, rest_range);
    let rest_range = match result.value {
        BlockElement::ParseError => result.rest_range,
        _ => {
            proof {
                assert(result.rest_range@ =~= b.skip(1));
                lemma_be_view_unfold(result.value);
                assert(be_view(result.value) =~= spec_block_model(s, b).0);
            }
            return result;
        },
    };
    let result = parse_code_block_element(src, rest_range);
    let rest_range = match result.value {
        BlockElement::ParseError => result.rest_range,
        _ => {
            proof {
                let j = spec_fence_close(s, "```"@, b, 1)->Some_0;
                lemma_fence_close_bounds(s, "```"@, b, 1);
                assert(result.rest_range@ =~= b.skip(j + 1));
                assert(be_view(result.value) =~= spec_block_model(s, b).0);
            }
            return result;
        },
    };
    let result = parse_math_block_element(src, rest_range);
    let rest_range = match result.value {
        BlockElement::ParseError => result.rest_range,
        _ => {
            proof {
                let j = spec_fence_close(s, "$$"@, b, 1)->Some_0;
                lemma_fence_close_bounds(s, "$$"@, b, 1);
                assert(result.rest_range@ =~= b.skip(j + 1));
                assert(be_view(result.value) =~= spec_block_model(s, b).0);
            }
            return result;
        },
    };
    let result = parse_theorem_block_element(src, rest_range);
    let rest_range = match result.value {
        BlockElement::ParseError => result.rest_range,
        _ => {
            proof {
                let k = spec_lift_count(s, "  "@, b.skip(1));
                lemma_lift_count_bounds(s, "  "@, b.skip(1));
                assert(result.rest_range@ =~= b.skip(1 + k));
                lemma_be_view_unfold(result.value);
                assert(be_view(result.value) =~= spec_block_model(s, b).0);
            }
            return result;
        },
    };
    let result = parse_proof_block_element(src, rest_range);
    let rest_range = match result.value {
        BlockElement::ParseError => result.rest_range,
        _ => {
            proof {
                let k = spec_lift_count(s, "  "@, b.skip(1));
                lemma_lift_count_bounds(s, "  "@, b.skip(1));
                assert(result.rest_range@ =~= b.skip(1 + k));
                lemma_be_view_unfold(result.value);
                assert(be_view(result.value) =~= spec_block_model(s, b).0);
            }
            return result;
        },
    };
    let result = parse_derivation_block_element(src, rest_range);
    let rest_range = match result.value {
        Some(derivation) => {
            let ghost dtree = derivation;
            let value = BlockElement::Derivation(derivation);
            proof {
                let k1 = spec_lift_count(s, "  "@, b);
                let k2 = spec_lift_count(s, "  "@, b.skip(k1 + 1));
                lemma_lift_count_bounds(s, "  "@, b);
                lemma_lift_count_bounds(s, "  "@, b.skip(k1 + 1));
                lemma_be_view_unfold(value);
                assert(be_view(value) =~= spec_block_model(s, b).0);
            }
            return ParseResult {
                value,
                errors: result.errors,
                warnings: result.warnings,
                rest_range: result.rest_range,
            };
        },
        None => result.rest_range,
    };
    let result = parse_list_block_element(src, rest_range);
    let rest_range = match result.value {
        BlockElement::ParseError => result.rest_range,
        _ => {
            proof {
                lemma_list_consumed_bounds(s, b);
                lemma_be_view_unfold(result.value);
                assert(be_view(result.value) =~= spec_block_model(s, b).0);
            }
            return result;
        },
    };
    let result = parse_blockquote_element(src, rest_range);
    let rest_range = match result.value {
        BlockElement::ParseError => result.rest_range,
        _ => {
            proof {
                lemma_lift_count_bounds(s, "> "@, b);
                lemma_be_view_unfold(result.value);
                assert(be_view(result.value) =~= spec_block_model(s, b).0);
            }
            return result;
        },
    };
    proof {
        assert(!spec_para_end(s, Some(b[0]), b));
        lemma_para_count_bounds(s, Some(b[0]), b);
    }
    let result = parse_paragraph(src, rest_range);
    proof {
        let n = spec_para_count(s, Some(b[0]), b);
        lemma_para_count_bounds(s, Some(b[0]), b.drop_first());
        assert(n >= 1);
        assert(result.rest_range@ =~= b.skip(n));
        assert(be_view(result.value) =~= spec_block_model(s, b).0);
    }
    result
}

/// Run the dispatcher to exhaustion, skipping blank lines between block
/// elements.  The whole input is consumed, and the produced tree never
/// holds the `ParseError` sentinel.
#[verifier::loop_isolation(false)]
pub fn parse_block_elements(src: &Vec<Vec<char>>, src_range: BlockRange) -> (r: ParseResult<
    Vec<BlockElement>,
    BlockRange,
>)
    requires
        block_wf(lines_view(src), src_range@),
    ensures
        r.errors.len() == 0 && r.warnings.len() == 0,
        r.rest_range@.len() == 0,
        bes_view(r.value@) =~= spec_blocks_model(lines_view(src), src_range@),
        forall|i: int|
            0 <= i < r.value@.len() ==> !((#[trigger] r.value@[i])
                matches BlockElement::ParseError),
    decreases block_weight(src_range@), 2int,
{
    let ghost s = lines_view(src);
    let ghost b = src_range@;
    let mut rest = src_range;
    proof {
        lemma_block_weight_bounds(b);
    }
    while rest.len() > 0 && rest[0].is_empty()
        invariant
            block_wf(s, rest@),
            block_weight(rest@) <= block_weight(b),
            block_weight(rest@) >= 0,
            spec_blocks_model(s, rest@) == spec_blocks_model(s, b),
        decreases rest@.len(),
    {
        proof {
            assert(spec_blocks_model(s, rest@) == spec_blocks_model(s, rest@.drop_first()));
        }
        let _ = rest.pop_front();
        proof {
            lemma_block_weight_bounds(rest@);
        }
    }
    if rest.len() == 0 {
        let value: Vec<BlockElement> = Vec::new();
        proof {
            assert(bes_view(value@) =~= spec_blocks_model(s, b));
        }
        return ParseResult {
            value,
            errors: Vec::new(),
            warnings: Vec::new(),
            rest_range: rest,
        };
    }
    let ghost before = rest@;
    let first_result = parse_block_element(src, rest);
    let ghost first_value = first_result.value;
    proof {
        lemma_block_weight_bounds(first_result.rest_range@);
        assert(spec_blocks_model(s, before) =~= seq![spec_block_model(s, before).0]
            + spec_blocks_model(s, first_result.rest_range@));
    }
    let mut others_result = parse_block_elements(src, first_result.rest_range);
    let mut value: Vec<BlockElement> = Vec::new();
    value.push(first_result.value);
    let ghost others = others_result.value@;
    value.append(&mut others_result.value);
    proof {
        assert(value@ =~= seq![first_value] + others);
        assert(bes_view(value@) =~= seq![be_view(first_value)] + bes_view(others));
    }
    ParseResult {
        value,
        errors: Vec::new(),
        warnings: Vec::new(),
        rest_range: others_result.rest_range,
    }
}


/// The model of one derivation parse at the front of `b`: the premises
/// region, the rule line, and the conclusion, exactly as
/// `parse_derivation_block_element` produces them.
pub open spec fn spec_derivation_model(s: Seq<Seq<char>>, b: Seq<InlineRange>) -> Option<
    (DerivationModel, Seq<InlineRange>),
>
    decreases block_weight(b), 0int via spec_derivation_model_dec
{
    if !spec_deriv_matches(s, b) {
        None
    } else {
        let k1 = spec_lift_count(s, "  "@, b);
        let premises = spec_premises_model(s, spec_lifted(b, k1, 2));
        let rule_name = spec_inlines(s, spec_rule_name_start(s, b[k1]));
        let k2 = spec_lift_count(s, "  "@, b.skip(k1 + 1));
        if k2 >= 1 {
            Some(
                (
                    DerivationModel::InferenceRule {
                        premises,
                        conclusion: spec_concat_inlines(s, spec_lifted(b.skip(k1 + 1), k2, 2)),
                        rule_name,
                    },
                    b.skip(k1 + 1 + k2),
                ),
            )
        } else if k1 + 1 < b.len() && range_len(b[k1 + 1]) > 0 {
            Some(
                (
                    DerivationModel::InferenceRule {
                        premises,
                        conclusion: spec_inlines(s, b[k1 + 1]),
                        rule_name,
                    },
                    b.skip(k1 + 2),
                ),
            )
        } else {
            Some(
                (
                    DerivationModel::InferenceRule {
                        premises,
                        conclusion: Seq::empty(),
                        rule_name,
                    },
                    b.skip(k1 + 1),
                ),
            )
        }
    }
}

#[via_fn]
proof fn spec_derivation_model_dec(s: Seq<Seq<char>>, b: Seq<InlineRange>) {
    if spec_deriv_matches(s, b) {
        reveal_strlit("  ");
        let k1 = spec_lift_count(s, "  "@, b);
        lemma_lift_count_bounds(s, "  "@, b);
        lemma_block_weight_bounds(b);
        if k1 >= 1 {
            assert(forall|i: int|
                0 <= i < k1 ==> (#[trigger] b[i]).start_column + 2 <= b[i].end_column) by {
                assert(forall|i: int| 0 <= i < k1 ==> spec_starts_with(s, "  "@, #[trigger] b[i]));
            }
            lemma_lifted_weight(b, k1, 2);
            lemma_block_weight_split(b, k1);
            lemma_block_weight_bounds(b.skip(k1));
        } else {
            assert(spec_lifted(b, 0, 2) =~= Seq::<InlineRange>::empty());
        }
        lemma_block_weight_bounds(spec_lifted(b, k1, 2));
    }
}

/// The models of the premises in a lifted premises region: each premise is a
/// nested derivation, or the front line as an inline-parsed leaf.
pub open spec fn spec_premises_model(s: Seq<Seq<char>>, p: Seq<InlineRange>) -> Seq<
    DerivationModel,
>
    decreases block_weight(p), 1int via spec_premises_model_dec
{
    if p.len() == 0 {
        Seq::empty()
    } else {
        match spec_derivation_model(s, p) {
            Some((d, rest)) => if 0 <= block_weight(rest) < block_weight(p) {
                seq![d] + spec_premises_model(s, rest)
            } else {
                seq![d]
            },
            None => seq![DerivationModel::Leaf { content: spec_inlines(s, p[0]) }]
                + spec_premises_model(s, p.drop_first()),
        }
    }
}

#[via_fn]
proof fn spec_premises_model_dec(s: Seq<Seq<char>>, p: Seq<InlineRange>) {
    if p.len() > 0 {
        lemma_block_weight_bounds(p.drop_first());
        assert(block_weight(p) == line_weight(p[0]) + block_weight(p.drop_first()));
    }
}

/// The models of the items of a list starting at the front of `b`.
pub open spec fn spec_list_items_model(s: Seq<Seq<char>>, b: Seq<InlineRange>) -> Seq<
    ListItemModel,
>
    decreases block_weight(b), 0int via spec_list_items_model_dec
{
    if b.len() == 0 || !spec_starts_with(s, "- "@, b[0]) {
        Seq::empty()
    } else {
        let k = spec_lift_count(s, "  "@, b.drop_first());
        let item = ListItemModel {
            top_line: spec_inlines(s, spec_consume(b[0], 2)),
            blocks: spec_blocks_model(s, spec_lifted(b.drop_first(), k, 2)),
        };
        if k + 1 <= b.len() {
            seq![item] + spec_list_items_model(s, b.skip(1 + k))
        } else {
            seq![item]
        }
    }
}

#[via_fn]
proof fn spec_list_items_model_dec(s: Seq<Seq<char>>, b: Seq<InlineRange>) {
    if b.len() > 0 && spec_starts_with(s, "- "@, b[0]) {
        reveal_strlit("- ");
        reveal_strlit("  ");
        let k = spec_lift_count(s, "  "@, b.drop_first());
        lemma_lift_count_bounds(s, "  "@, b.drop_first());
        assert(forall|i: int|
            0 <= i < k ==> (#[trigger] b.drop_first()[i]).start_column + 2 <= b.drop_first()[
            i].end_column) by {
            assert(forall|i: int|
                0 <= i < k ==> spec_starts_with(s, "  "@, #[trigger] b.drop_first()[i]));
        }
        lemma_lifted_weight(b.drop_first(), k, 2);
        lemma_block_weight_split(b.drop_first(), k);
        lemma_block_weight_bounds(b.drop_first().skip(k));
        lemma_block_weight_bounds(spec_lifted(b.drop_first(), k, 2));
        assert(block_weight(b) == line_weight(b[0]) + block_weight(b.drop_first()));
        assert(line_weight(b[0]) >= 3);
        lemma_weight_skip_lt(b, 1 + k);
    }
}

/// The model of one block-element dispatch at the front of a non-empty `b`
/// whose front line is not blank: the first alternative to match, in the
/// dispatcher's priority order, with the paragraph fallback last.
pub open spec fn spec_block_model(s: Seq<Seq<char>>, b: Seq<InlineRange>) -> (
    BlockModel,
    Seq<InlineRange>,
)
    decreases block_weight(b), 2int via spec_block_model_dec
{
    if b.len() > 0 && spec_starts_with(s, "#"@, b[0]) {
        (
            BlockModel::Heading {
                level: spec_count_prefix_char(s, b[0], '#'),
                content: spec_inlines(s, spec_heading_content_start(s, b[0])),
            },
            b.skip(1),
        )
    } else if spec_fenced_matches(s, b, "```"@, false) {
        let j = spec_fence_close(s, "```"@, b, 1)->Some_0;
        (BlockModel::Code { lines: b.subrange(1, j) }, b.skip(j + 1))
    } else if spec_fenced_matches(s, b, "$$"@, true) {
        let j = spec_fence_close(s, "$$"@, b, 1)->Some_0;
        (BlockModel::Math { lines: b.subrange(1, j) }, b.skip(j + 1))
    } else if spec_theorem_matches(s, b) {
        let mark = spec_theorem_mark(s, b[0])->Some_0;
        let k = spec_lift_count(s, "  "@, b.skip(1));
        (
            BlockModel::Theorem {
                kind: mark.0,
                title: spec_inlines(s, spec_consume(b[0], mark.1)),
                content: spec_blocks_model(s, spec_lifted(b.skip(1), k, 2)),
            },
            b.skip(1 + k),
        )
    } else if b.len() > 0 && (spec_match(s, "Proof."@, b[0]) || spec_match(s, "proof."@, b[0])) {
        let k = spec_lift_count(s, "  "@, b.skip(1));
        (
            BlockModel::Proof { content: spec_blocks_model(s, spec_lifted(b.skip(1), k, 2)) },
            b.skip(1 + k),
        )
    } else if spec_deriv_matches(s, b) {
        let p = spec_derivation_model(s, b)->Some_0;
        (BlockModel::Derivation { tree: p.0 }, p.1)
    } else if b.len() > 0 && spec_starts_with(s, "- "@, b[0]) {
        (
            BlockModel::List { mark_kind: ListMarkKind::Bullet, items: spec_list_items_model(s, b) },
            b.skip(spec_list_consumed(s, b)),
        )
    } else if b.len() > 0 && spec_starts_with(s, "> "@, b[0]) {
        let m = spec_lift_count(s, "> "@, b);
        (
            BlockModel::Blockquote { inner: spec_blocks_model(s, spec_lifted(b, m, 2)) },
            b.skip(m),
        )
    } else {
        let head = if b.len() > 0 {
            Some(b[0])
        } else {
            None
        };
        let n = spec_para_count(s, head, b);
        (BlockModel::Paragraph { content: spec_concat_inlines(s, b.take(n)) }, b.skip(n))
    }
}

#[via_fn]
proof fn spec_block_model_dec(s: Seq<Seq<char>>, b: Seq<InlineRange>) {
    reveal_strlit("  ");
    lemma_block_weight_bounds(b);
    if spec_theorem_matches(s, b) || (b.len() > 0 && (spec_match(s, "Proof."@, b[0]) || spec_match(
        s,
        "proof."@,
        b[0],
    ))) {
        let k = spec_lift_count(s, "  "@, b.skip(1));
        lemma_lift_count_bounds(s, "  "@, b.skip(1));
        if k >= 1 {
            assert(forall|i: int|
                0 <= i < k ==> (#[trigger] b.skip(1)[i]).start_column + 2 <= b.skip(
                    1,
                )[i].end_column) by {
                assert(forall|i: int|
                    0 <= i < k ==> spec_starts_with(s, "  "@, #[trigger] b.skip(1)[i]));
            }
            lemma_lifted_weight(b.skip(1), k, 2);
            lemma_block_weight_split(b.skip(1), k);
            lemma_block_weight_bounds(b.skip(1).skip(k));
        } else {
            assert(spec_lifted(b.skip(1), 0, 2) =~= Seq::<InlineRange>::empty());
        }
        lemma_block_weight_bounds(spec_lifted(b.skip(1), k, 2));
        lemma_weight_skip_lt(b, 1);
    }
    if b.len() > 0 && spec_starts_with(s, "> "@, b[0]) {
        reveal_strlit("> ");
        let m = spec_lift_count(s, "> "@, b);
        lemma_lift_count_bounds(s, "> "@, b);
        assert(m >= 1) by {
            lemma_lift_count_bounds(s, "> "@, b.drop_first());
        }
        assert(forall|i: int|
            0 <= i < m ==> (#[trigger] b[i]).start_column + 2 <= b[i].end_column) by {
            assert(forall|i: int| 0 <= i < m ==> spec_starts_with(s, "> "@, #[trigger] b[i]));
        }
        lemma_lifted_weight(b, m, 2);
        lemma_block_weight_split(b, m);
        lemma_block_weight_bounds(b.skip(m));
        lemma_block_weight_bounds(spec_lifted(b, m, 2));
    }
}

/// The model of the block dispatcher run to exhaustion, blank lines skipped
/// between elements.  (Each dispatch consumes at least one line, so the
/// guard on the recursive call always holds.)
pub open spec fn spec_blocks_model(s: Seq<Seq<char>>, b: Seq<InlineRange>) -> Seq<BlockModel>
    decreases block_weight(b), 3int via spec_blocks_model_dec
{
    if b.len() == 0 {
        Seq::empty()
    } else if range_len(b[0]) == 0 {
        spec_blocks_model(s, b.drop_first())
    } else {
        let (m, rest) = spec_block_model(s, b);
        if 0 <= block_weight(rest) < block_weight(b) {
            seq![m] + spec_blocks_model(s, rest)
        } else {
            seq![m]
        }
    }
}

#[via_fn]
proof fn spec_blocks_model_dec(s: Seq<Seq<char>>, b: Seq<InlineRange>) {
    if b.len() > 0 {
        lemma_block_weight_bounds(b.drop_first());
        assert(block_weight(b) == line_weight(b[0]) + block_weight(b.drop_first()));
    }
}

} // verus!
