//! The positional range model over source text, and the document tree that
//! parsing produces.

use vstd::prelude::*;
use std::collections::VecDeque;

verus! {

/// A half-open span of columns within a single source line:
/// the characters at columns `start_column <= c < end_column` of line `line`.
#[derive(Debug, Clone, Copy, PartialEq, Eq, Structural)]
pub struct InlineRange {
    pub line: usize,
    pub start_column: usize,
    pub end_column: usize,
}

/// The parser's entire mutable state: the ordered queue of line spans that
/// have not been consumed yet, front = next line.
pub type BlockRange = VecDeque<InlineRange>;

/// The source text as a sequence of lines of codepoints.
pub open spec fn lines_view(src: &Vec<Vec<char>>) -> Seq<Seq<char>> {
    Seq::new(src@.len(), |i: int| src@[i]@)
}

/// A range addresses text that actually exists in the source.
pub open spec fn range_wf(s: Seq<Seq<char>>, r: InlineRange) -> bool {
    &&& r.line < s.len()
    &&& r.start_column <= r.end_column
    &&& r.end_column <= s[r.line as int].len()
}

/// Number of characters remaining in a line span.
pub open spec fn range_len(r: InlineRange) -> int {
    r.end_column - r.start_column
}

/// Every line span of a block range is well formed.
pub open spec fn block_wf(s: Seq<Seq<char>>, b: Seq<InlineRange>) -> bool {
    forall|i: int| 0 <= i < b.len() ==> range_wf(s, #[trigger] b[i])
}

/// The range `r` with its first `n` characters consumed.
pub open spec fn spec_consume(r: InlineRange, n: int) -> InlineRange {
    InlineRange {
        line: r.line,
        start_column: (r.start_column + n) as usize,
        end_column: r.end_column,
    }
}

/// Termination measure of one line span: its remaining characters plus one,
/// so that even an empty line costs something to consume.
pub open spec fn line_weight(r: InlineRange) -> int {
    if r.start_column <= r.end_column {
        r.end_column - r.start_column + 1
    } else {
        1
    }
}

/// Termination measure of a block range: total weight of its line spans.
/// Every parsing step strictly shrinks this quantity.
pub open spec fn block_weight(b: Seq<InlineRange>) -> int
    decreases b.len(),
{
    if b.len() == 0 {
        0
    } else {
        line_weight(b[0]) + block_weight(b.drop_first())
    }
}

pub proof fn lemma_block_weight_bounds(b: Seq<InlineRange>)
    ensures
        block_weight(b) >= b.len(),
    decreases b.len(),
{
    if b.len() > 0 {
        lemma_block_weight_bounds(b.drop_first());
    }
}

/// The weight of a block range splits at any cut point.
pub proof fn lemma_block_weight_split(b: Seq<InlineRange>, k: int)
    requires
        0 <= k <= b.len(),
    ensures
        block_weight(b) == block_weight(b.take(k)) + block_weight(b.skip(k)),
    decreases k,
{
    if k == 0 {
        assert(b.take(0) =~= Seq::<InlineRange>::empty());
        assert(b.skip(0) =~= b);
    } else {
        lemma_block_weight_split(b.drop_first(), k - 1);
        assert(b.take(k).drop_first() =~= b.drop_first().take(k - 1));
        assert(b.skip(k) =~= b.drop_first().skip(k - 1));
        assert(b.take(k)[0] == b[0]);
        assert(block_weight(b.take(k)) == line_weight(b[0]) + block_weight(
            b.drop_first().take(k - 1),
        ));
    }
}

/// The document tree.
#[derive(Debug, PartialEq, Eq)]
pub struct Document {
    /// Key/value pairs of the leading preamble, in source order;
    /// on duplicate keys the last write wins.
    pub preamble: Vec<(String, String)>,
    pub block_elements: Vec<BlockElement>,
    /// Imported relative paths, in source order, duplicates preserved.
    pub imports: Vec<ImportPath>,
}

/// The preamble mapping: entries are kept in source order, and on a
/// duplicate key the entry written last wins.
pub open spec fn spec_preamble_lookup(entries: Seq<(String, String)>, key: Seq<char>) -> Option<
    Seq<char>,
>
    decreases entries.len(),
{
    if entries.len() == 0 {
        None
    } else if entries.last().0@ == key {
        Some(entries.last().1@)
    } else {
        spec_preamble_lookup(entries.drop_last(), key)
    }
}

impl Document {
    /// The preamble value bound to `key`; on duplicate keys the last write
    /// wins.
    pub fn preamble_value<'a>(&'a self, key: &String) -> (r: Option<&'a String>)
        ensures
            match r {
                Some(v) => spec_preamble_lookup(self.preamble@, key@) == Some(v@),
                None => spec_preamble_lookup(self.preamble@, key@) is None,
            },
    {
        let mut i: usize = self.preamble.len();
        proof {
            assert(self.preamble@.take(i as int) =~= self.preamble@);
        }
        while i > 0
            invariant
                i <= self.preamble@.len(),
                spec_preamble_lookup(self.preamble@, key@) == spec_preamble_lookup(
                    self.preamble@.take(i as int),
                    key@,
                ),
            decreases i,
        {
            i = i - 1;
            if self.preamble[i].0 == *key {
                proof {
                    assert(self.preamble@.take(i + 1).last() == self.preamble@[i as int]);
                }
                return Some(&self.preamble[i].1);
            }
            proof {
                assert(self.preamble@.take(i + 1).last() == self.preamble@[i as int]);
                assert(self.preamble@.take(i + 1).drop_last() =~= self.preamble@.take(i as int));
            }
        }
        proof {
            assert(self.preamble@.take(0) =~= Seq::<(String, String)>::empty());
        }
        None
    }
}

/// A relative path named by an import statement, as its separator-free
/// segments in order.
#[derive(Debug, PartialEq, Eq)]
pub struct ImportPath {
    pub segments: Vec<String>,
}

#[derive(Debug, PartialEq, Eq)]
#[allow(inconsistent_fields)]
pub enum BlockElement {
    Heading { level: usize, content: Vec<InlineElement> },
    Paragraph { content: Vec<InlineElement> },
    Code { lines: BlockRange },
    Math { lines: BlockRange },
    Theorem { kind: TheoremKind, title: Vec<InlineElement>, content: Vec<BlockElement> },
    Proof { content: Vec<BlockElement> },
    Derivation(Derivation),
    List { mark_kind: ListMarkKind, items: Vec<ListItem> },
    Blockquote { inner: Vec<BlockElement> },
    /// Sentinel of a speculative alternative that did not match;
    /// never a document-level fault.
    ParseError,
}

/// A natural-deduction tree: premises over a rule line, or a single line.
#[derive(Debug, PartialEq, Eq)]
pub enum Derivation {
    InferenceRule {
        premises: Vec<Derivation>,
        conclusion: Vec<InlineElement>,
        rule_name: Vec<InlineElement>,
    },
    Leaf(Vec<InlineElement>),
}

#[derive(Debug, PartialEq, Eq, Clone, Copy, Structural)]
pub enum TheoremKind {
    Theorem,
    Proposition,
    Lemma,
    Corollary,
    Definition,
    Axiom,
    ParseError,
}

#[derive(Debug, PartialEq, Eq, Clone, Copy, Structural)]
pub enum ListMarkKind {
    Bullet,
}

#[derive(Debug, PartialEq, Eq)]
pub struct ListItem {
    pub top_line: Vec<InlineElement>,
    pub blocks: Vec<BlockElement>,
}

#[derive(Debug, PartialEq, Eq)]
pub enum InlineElement {
    Text { range: InlineRange },
    Link { text: Vec<InlineElement>, url_range: InlineRange },
    Code { range: InlineRange },
    Math { range: InlineRange },
    SmallCaps { range: InlineRange },
    ParseError,
}

impl InlineElement {
    pub fn is_parse_error(&self) -> (b: bool)
        ensures
            b == (self matches InlineElement::ParseError),
    {
        match self {
            InlineElement::ParseError => true,
            _ => false,
        }
    }
}

impl InlineRange {
    /// Advance the start of the span by `n` characters.
    pub fn consume(self, n: usize) -> (r: Self)
        requires
            self.start_column + n <= self.end_column,
        ensures
            r == spec_consume(self, n as int),
    {
        InlineRange {
            line: self.line,
            start_column: self.start_column + n,
            end_column: self.end_column,
        }
    }

    /// Advance the start of the span by one character.
    pub fn move_to_next_char(&mut self)
        requires
            old(self).start_column < old(self).end_column,
        ensures
            *final(self) == spec_consume(*old(self), 1),
    {
        self.start_column = self.start_column + 1;
    }

    pub fn is_empty(&self) -> (b: bool)
        ensures
            b == (range_len(*self) == 0),
    {
        self.start_column == self.end_column
    }
}

/// The block range covering the whole source: one entry per line, each
/// spanning the full line.
pub fn src_block_range(src: &Vec<Vec<char>>) -> (r: BlockRange)
    ensures
        r@.len() == lines_view(src).len(),
        forall|i: int|
            0 <= i < r@.len() ==> (#[trigger] r@[i]) == (InlineRange {
                line: i as usize,
                start_column: 0,
                end_column: lines_view(src)[i].len() as usize,
            }),
        block_wf(lines_view(src), r@),
{
    let ghost s = lines_view(src);
    let mut r: BlockRange = VecDeque::new();
    let n: usize = src.len();
    for i in 0..n
        invariant
            n == src@.len(),
            s == lines_view(src),
            r@.len() == i,
            forall|j: int|
                0 <= j < i ==> (#[trigger] r@[j]) == (InlineRange {
                    line: j as usize,
                    start_column: 0,
                    end_column: s[j].len() as usize,
                }),
    {
        let line_len: usize = src[i].len();
        r.push_back(InlineRange { line: i, start_column: 0, end_column: line_len });
    }
    r
}

/// The text a line span denotes, as a character sequence.
pub open spec fn spec_verbatim_inline(s: Seq<Seq<char>>, r: InlineRange) -> Seq<char> {
    s[r.line as int].subrange(r.start_column as int, r.end_column as int)
}

/// The text a block range denotes: its line spans joined by newlines.
pub open spec fn spec_verbatim_block(s: Seq<Seq<char>>, b: Seq<InlineRange>) -> Seq<char>
    decreases b.len(),
{
    if b.len() == 0 {
        Seq::empty()
    } else if b.len() == 1 {
        spec_verbatim_inline(s, b[0])
    } else {
        spec_verbatim_inline(s, b[0]) + seq!['\n'] + spec_verbatim_block(s, b.drop_first())
    }
}

} // verus!
