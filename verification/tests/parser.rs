use bokuteki::block::{
    lift_block_range, parse_block_element, parse_block_elements, parse_code_block_element,
    parse_derivation_block_element,
};
use bokuteki::compile::{compile_src, split_lines, string_chars};
use bokuteki::document::{
    src_block_range, BlockElement, BlockRange, Derivation, InlineElement, InlineRange,
    ListMarkKind, TheoremKind,
};
use bokuteki::inline::parse_inline_elements;
use bokuteki::strutil::{verbatim_block_content, verbatim_inline_content};

fn to_lines(s: &str) -> Vec<Vec<char>> {
    split_lines(&string_chars(&s.to_string()))
}

fn text_of(src: &Vec<Vec<char>>, e: &InlineElement) -> String {
    match e {
        InlineElement::Text { range } => verbatim_inline_content(src, range),
        InlineElement::Code { range } => verbatim_inline_content(src, range),
        InlineElement::Math { range } => verbatim_inline_content(src, range),
        InlineElement::SmallCaps { range } => verbatim_inline_content(src, range),
        _ => panic!("no single span"),
    }
}

fn blocks_of(s: &str) -> (Vec<Vec<char>>, Vec<BlockElement>) {
    let src = to_lines(s);
    let range = src_block_range(&src);
    let result = parse_block_elements(&src, range);
    assert!(result.errors.is_empty());
    assert!(result.warnings.is_empty());
    assert!(result.rest_range.is_empty());
    (src, result.value)
}

#[test]
fn range_operations() {
    let mut r = InlineRange { line: 0, start_column: 1, end_column: 4 };
    assert!(!r.is_empty());
    r.move_to_next_char();
    assert_eq!(r, InlineRange { line: 0, start_column: 2, end_column: 4 });
    let r2 = r.consume(2);
    assert!(r2.is_empty());
}

#[test]
fn source_block_range_covers_lines() {
    let src = to_lines("ab\n\ncde\n");
    let range = src_block_range(&src);
    let entries: Vec<InlineRange> = range.iter().copied().collect();
    assert_eq!(
        entries,
        vec![
            InlineRange { line: 0, start_column: 0, end_column: 2 },
            InlineRange { line: 1, start_column: 0, end_column: 0 },
            InlineRange { line: 2, start_column: 0, end_column: 3 },
        ]
    );
}

#[test]
fn is_parse_error_only_on_sentinel() {
    assert!(InlineElement::ParseError.is_parse_error());
    let t = InlineElement::Text { range: InlineRange { line: 0, start_column: 0, end_column: 0 } };
    assert!(!t.is_parse_error());
}

#[test]
fn indent_lift_without_prefix_is_identity() {
    // Idempotence of Indent-Lift: a front line without the prefix means an
    // empty lifted region and the original range handed back unchanged.
    let src = to_lines("abc\n  def\n");
    let range = src_block_range(&src);
    let before: Vec<InlineRange> = range.iter().copied().collect();
    let result = lift_block_range(&src, "  ", range);
    assert!(result.value.is_empty());
    let after: Vec<InlineRange> = result.rest_range.iter().copied().collect();
    assert_eq!(before, after);
}

#[test]
fn indent_lift_strips_prefix_run() {
    let src = to_lines("  a\n  b\nc\n");
    let range = src_block_range(&src);
    let result = lift_block_range(&src, "  ", range);
    let lifted: Vec<InlineRange> = result.value.iter().copied().collect();
    assert_eq!(
        lifted,
        vec![
            InlineRange { line: 0, start_column: 2, end_column: 3 },
            InlineRange { line: 1, start_column: 2, end_column: 3 },
        ]
    );
    let rest: Vec<InlineRange> = result.rest_range.iter().copied().collect();
    assert_eq!(rest, vec![InlineRange { line: 2, start_column: 0, end_column: 1 }]);
}

#[test]
fn heading_beats_list_marker() {
    // Dispatcher priority: "# - x" is a heading holding the literal "- x".
    let (src, blocks) = blocks_of("# - x\n");
    assert_eq!(blocks.len(), 1);
    match &blocks[0] {
        BlockElement::Heading { level, content } => {
            assert_eq!(*level, 1);
            assert_eq!(content.len(), 1);
            assert_eq!(text_of(&src, &content[0]), "- x");
        },
        other => panic!("expected heading, got {:?}", other),
    }
}

#[test]
fn heading_level_counts_marks() {
    let (src, blocks) = blocks_of("## Sub\n");
    match &blocks[0] {
        BlockElement::Heading { level, content } => {
            assert_eq!(*level, 2);
            assert_eq!(text_of(&src, &content[0]), "Sub");
        },
        other => panic!("expected heading, got {:?}", other),
    }
}

#[test]
fn heading_then_paragraph_with_inline_spans() {
    let (src, blocks) = blocks_of("# Title\n\nHello `code` and $x+1$.\n");
    assert_eq!(blocks.len(), 2);
    match &blocks[0] {
        BlockElement::Heading { level, content } => {
            assert_eq!(*level, 1);
            assert_eq!(text_of(&src, &content[0]), "Title");
        },
        other => panic!("expected heading, got {:?}", other),
    }
    match &blocks[1] {
        BlockElement::Paragraph { content } => {
            assert_eq!(content.len(), 5);
            assert!(matches!(content[0], InlineElement::Text { .. }));
            assert_eq!(text_of(&src, &content[0]), "Hello ");
            assert!(matches!(content[1], InlineElement::Code { .. }));
            assert_eq!(text_of(&src, &content[1]), "code");
            assert!(matches!(content[2], InlineElement::Text { .. }));
            assert_eq!(text_of(&src, &content[2]), " and ");
            assert!(matches!(content[3], InlineElement::Math { .. }));
            assert_eq!(text_of(&src, &content[3]), "x+1");
            assert!(matches!(content[4], InlineElement::Text { .. }));
            assert_eq!(text_of(&src, &content[4]), ".");
        },
        other => panic!("expected paragraph, got {:?}", other),
    }
}

#[test]
fn theorem_with_title_and_body() {
    let (src, blocks) = blocks_of("Theorem. P holds.\n  Proof body line.\n");
    assert_eq!(blocks.len(), 1);
    match &blocks[0] {
        BlockElement::Theorem { kind, title, content } => {
            assert_eq!(*kind, TheoremKind::Theorem);
            assert_eq!(title.len(), 1);
            assert_eq!(text_of(&src, &title[0]), "P holds.");
            assert_eq!(content.len(), 1);
            match &content[0] {
                BlockElement::Paragraph { content } => {
                    assert_eq!(text_of(&src, &content[0]), "Proof body line.");
                },
                other => panic!("expected paragraph body, got {:?}", other),
            }
        },
        other => panic!("expected theorem, got {:?}", other),
    }
}

#[test]
fn theorem_abbreviated_lowercase_mark() {
    let (src, blocks) = blocks_of("lem. Small\n  body\n");
    match &blocks[0] {
        BlockElement::Theorem { kind, title, .. } => {
            assert_eq!(*kind, TheoremKind::Lemma);
            assert_eq!(text_of(&src, &title[0]), "Small");
        },
        other => panic!("expected theorem, got {:?}", other),
    }
}

#[test]
fn theorem_with_empty_body_falls_through() {
    // A theorem mark whose Indent-Lifted body is empty is a failure of the
    // theorem alternative; the line degrades to a paragraph.
    let (src, blocks) = blocks_of("Theorem. T\n");
    assert_eq!(blocks.len(), 1);
    match &blocks[0] {
        BlockElement::Paragraph { content } => {
            assert_eq!(text_of(&src, &content[0]), "Theorem. T");
        },
        other => panic!("expected paragraph, got {:?}", other),
    }
}

#[test]
fn proof_block_with_body() {
    let (src, blocks) = blocks_of("Proof.\n  done\n");
    match &blocks[0] {
        BlockElement::Proof { content } => match &content[0] {
            BlockElement::Paragraph { content } => {
                assert_eq!(text_of(&src, &content[0]), "done");
            },
            other => panic!("expected paragraph body, got {:?}", other),
        },
        other => panic!("expected proof, got {:?}", other),
    }
}

#[test]
fn derivation_two_premises_rule_and_conclusion() {
    let (src, blocks) = blocks_of("  A\n  B\n---- Rule\nC\n");
    assert_eq!(blocks.len(), 1);
    match &blocks[0] {
        BlockElement::Derivation(Derivation::InferenceRule {
            premises,
            conclusion,
            rule_name,
        }) => {
            assert_eq!(premises.len(), 2);
            match &premises[0] {
                Derivation::Leaf(content) => assert_eq!(text_of(&src, &content[0]), "A"),
                other => panic!("expected leaf premise, got {:?}", other),
            }
            match &premises[1] {
                Derivation::Leaf(content) => assert_eq!(text_of(&src, &content[0]), "B"),
                other => panic!("expected leaf premise, got {:?}", other),
            }
            assert_eq!(rule_name.len(), 1);
            assert_eq!(text_of(&src, &rule_name[0]), "Rule");
            assert_eq!(conclusion.len(), 1);
            assert_eq!(text_of(&src, &conclusion[0]), "C");
        },
        other => panic!("expected derivation, got {:?}", other),
    }
}

#[test]
fn nested_derivation_stacks() {
    let (src, blocks) = blocks_of("    A\n  ---- R1\n  B\n---- R2\nC\n");
    match &blocks[0] {
        BlockElement::Derivation(Derivation::InferenceRule {
            premises,
            conclusion,
            rule_name,
        }) => {
            assert_eq!(premises.len(), 1);
            match &premises[0] {
                Derivation::InferenceRule { premises, conclusion, rule_name } => {
                    assert_eq!(premises.len(), 1);
                    match &premises[0] {
                        Derivation::Leaf(content) => {
                            assert_eq!(text_of(&src, &content[0]), "A")
                        },
                        other => panic!("expected leaf, got {:?}", other),
                    }
                    assert_eq!(text_of(&src, &rule_name[0]), "R1");
                    assert_eq!(text_of(&src, &conclusion[0]), "B");
                },
                other => panic!("expected nested rule, got {:?}", other),
            }
            assert_eq!(text_of(&src, &rule_name[0]), "R2");
            assert_eq!(text_of(&src, &conclusion[0]), "C");
        },
        other => panic!("expected derivation, got {:?}", other),
    }
}

#[test]
fn derivation_without_rule_line_leaves_range_untouched() {
    // Fewer than three dashes: the whole construct reports no match and the
    // caller sees the original, unconsumed range.
    let src = to_lines("  A\n  B\n-- x\nC\n");
    let range = src_block_range(&src);
    let before: Vec<InlineRange> = range.iter().copied().collect();
    let result = parse_derivation_block_element(&src, range);
    assert!(result.value.is_none());
    let after: Vec<InlineRange> = result.rest_range.iter().copied().collect();
    assert_eq!(before, after);

    // The dispatcher then reaches the paragraph fallback on those lines.
    let (_, blocks) = blocks_of("  A\n  B\n-- x\nC\n");
    assert_eq!(blocks.len(), 1);
    assert!(matches!(blocks[0], BlockElement::Paragraph { .. }));
}

#[test]
fn unterminated_code_fence_degrades_to_paragraph() {
    let src = to_lines("```\ncode\n");
    let range = src_block_range(&src);
    let before: Vec<InlineRange> = range.iter().copied().collect();
    let result = parse_code_block_element(&src, range);
    assert!(matches!(result.value, BlockElement::ParseError));
    let after: Vec<InlineRange> = result.rest_range.iter().copied().collect();
    assert_eq!(before, after);

    let (src, blocks) = blocks_of("```\ncode\n");
    assert_eq!(blocks.len(), 1);
    match &blocks[0] {
        BlockElement::Paragraph { content } => {
            assert_eq!(content.len(), 3);
            assert!(matches!(content[0], InlineElement::Code { .. }));
            assert_eq!(text_of(&src, &content[0]), "");
            assert!(matches!(content[1], InlineElement::Text { .. }));
            assert_eq!(text_of(&src, &content[1]), "`");
            assert!(matches!(content[2], InlineElement::Text { .. }));
            assert_eq!(text_of(&src, &content[2]), "code");
        },
        other => panic!("expected paragraph, got {:?}", other),
    }
}

#[test]
fn code_block_round_trip() {
    // The verbatim body lines reproduce the original source lines exactly.
    let (src, blocks) = blocks_of("```\nfn f() {}\n  indented\n```\n");
    assert_eq!(blocks.len(), 1);
    match &blocks[0] {
        BlockElement::Code { lines } => {
            assert_eq!(verbatim_block_content(&src, lines), "fn f() {}\n  indented");
        },
        other => panic!("expected code block, got {:?}", other),
    }
}

#[test]
fn math_block_round_trip() {
    let (src, blocks) = blocks_of("$$\nx^2 + 1\n$$\n");
    assert_eq!(blocks.len(), 1);
    match &blocks[0] {
        BlockElement::Math { lines } => {
            assert_eq!(verbatim_block_content(&src, lines), "x^2 + 1");
        },
        other => panic!("expected math block, got {:?}", other),
    }
}

#[test]
fn math_block_start_fence_must_be_exact() {
    // "$$x" is not a math start fence, so the region is a paragraph.
    let (_, blocks) = blocks_of("$$x\ny\n$$\n");
    assert!(matches!(blocks[0], BlockElement::Paragraph { .. }));
}

#[test]
fn list_with_nested_continuation() {
    let (src, blocks) = blocks_of("- a\n  nested\n- b\n");
    assert_eq!(blocks.len(), 1);
    match &blocks[0] {
        BlockElement::List { mark_kind, items } => {
            assert_eq!(*mark_kind, ListMarkKind::Bullet);
            assert_eq!(items.len(), 2);
            assert_eq!(text_of(&src, &items[0].top_line[0]), "a");
            match &items[0].blocks[0] {
                BlockElement::Paragraph { content } => {
                    assert_eq!(text_of(&src, &content[0]), "nested");
                },
                other => panic!("expected nested paragraph, got {:?}", other),
            }
            assert_eq!(text_of(&src, &items[1].top_line[0]), "b");
            assert!(items[1].blocks.is_empty());
        },
        other => panic!("expected list, got {:?}", other),
    }
}

#[test]
fn blockquote_strips_marker_and_nests() {
    let (src, blocks) = blocks_of("> quoted\n> more\nplain\n");
    assert_eq!(blocks.len(), 2);
    match &blocks[0] {
        BlockElement::Blockquote { inner } => match &inner[0] {
            BlockElement::Paragraph { content } => {
                assert_eq!(text_of(&src, &content[0]), "quoted");
                assert_eq!(text_of(&src, &content[1]), "more");
            },
            other => panic!("expected inner paragraph, got {:?}", other),
        },
        other => panic!("expected blockquote, got {:?}", other),
    }
    assert!(matches!(blocks[1], BlockElement::Paragraph { .. }));
}

#[test]
fn inline_link_with_nested_math() {
    let (src, blocks) = blocks_of("See [$x$](url) now\n");
    match &blocks[0] {
        BlockElement::Paragraph { content } => {
            assert_eq!(content.len(), 3);
            assert_eq!(text_of(&src, &content[0]), "See ");
            match &content[1] {
                InlineElement::Link { text, url_range } => {
                    assert_eq!(text.len(), 1);
                    assert!(matches!(text[0], InlineElement::Math { .. }));
                    assert_eq!(text_of(&src, &text[0]), "x");
                    assert_eq!(verbatim_inline_content(&src, url_range), "url");
                },
                other => panic!("expected link, got {:?}", other),
            }
            assert_eq!(text_of(&src, &content[2]), " now");
        },
        other => panic!("expected paragraph, got {:?}", other),
    }
}

#[test]
fn inline_small_caps_span() {
    let src = to_lines("x %Sc% y");
    let range = InlineRange { line: 0, start_column: 0, end_column: 8 };
    let result = parse_inline_elements(&src, range);
    assert!(result.errors.is_empty());
    assert_eq!(result.value.len(), 3);
    assert_eq!(text_of(&src, &result.value[0]), "x ");
    assert!(matches!(result.value[1], InlineElement::SmallCaps { .. }));
    assert_eq!(text_of(&src, &result.value[1]), "Sc");
    assert_eq!(text_of(&src, &result.value[2]), " y");
}

#[test]
fn unterminated_inline_delimiter_degrades_to_text() {
    let src = to_lines("a $x");
    let range = InlineRange { line: 0, start_column: 0, end_column: 4 };
    let result = parse_inline_elements(&src, range);
    assert_eq!(result.value.len(), 1);
    assert!(matches!(result.value[0], InlineElement::Text { .. }));
    assert_eq!(text_of(&src, &result.value[0]), "a $x");
}

#[test]
fn block_parse_consumes_whole_input() {
    // Consumption is monotonic and complete: a single dispatch consumes at
    // least one line, and the driver consumes everything.
    let src = to_lines("one\n\n# two\n> three\n");
    let range = src_block_range(&src);
    let total = range.len();
    let result = parse_block_element(&src, range);
    assert!(result.rest_range.len() < total);
    let (_, blocks) = blocks_of("one\n\n# two\n> three\n");
    assert_eq!(blocks.len(), 3);
}

#[test]
fn compile_src_reports_nothing_for_block_text() {
    let (errors, warnings) = compile_src("# h\n\npara `c` x\n".to_string());
    assert!(errors.is_empty());
    assert!(warnings.is_empty());
}

#[test]
fn empty_input_yields_no_blocks() {
    let (_, blocks) = blocks_of("");
    assert!(blocks.is_empty());
    let (_, blocks) = blocks_of("\n\n\n");
    assert!(blocks.is_empty());
}

#[test]
fn theorem_mark_table_kinds() {
    let cases = [
        ("Prop. t\n  b\n", TheoremKind::Proposition),
        ("corollary. t\n  b\n", TheoremKind::Corollary),
        ("Def. t\n  b\n", TheoremKind::Definition),
        ("axm. t\n  b\n", TheoremKind::Axiom),
        ("thm. t\n  b\n", TheoremKind::Theorem),
    ];
    for (input, expected) in cases {
        let (_, blocks) = blocks_of(input);
        match &blocks[0] {
            BlockElement::Theorem { kind, .. } => assert_eq!(kind, &expected),
            other => panic!("expected theorem for {:?}, got {:?}", input, other),
        }
    }
}

#[test]
fn heading_without_space_keeps_word() {
    let (src, blocks) = blocks_of("#Title\n");
    match &blocks[0] {
        BlockElement::Heading { level, content } => {
            assert_eq!(*level, 1);
            assert_eq!(text_of(&src, &content[0]), "Title");
        },
        other => panic!("expected heading, got {:?}", other),
    }
}

#[test]
fn derivation_lifted_multi_line_conclusion() {
    let (src, blocks) = blocks_of("  A\n---\n  c1\n  c2\nafter\n");
    assert_eq!(blocks.len(), 2);
    match &blocks[0] {
        BlockElement::Derivation(Derivation::InferenceRule { conclusion, rule_name, .. }) => {
            assert!(rule_name.is_empty());
            assert_eq!(conclusion.len(), 2);
            assert_eq!(text_of(&src, &conclusion[0]), "c1");
            assert_eq!(text_of(&src, &conclusion[1]), "c2");
        },
        other => panic!("expected derivation, got {:?}", other),
    }
    assert!(matches!(blocks[1], BlockElement::Paragraph { .. }));
}

#[test]
fn paragraph_stops_at_blockquote_start() {
    let (src, blocks) = blocks_of("text line\n> quoted\n");
    assert_eq!(blocks.len(), 2);
    match &blocks[0] {
        BlockElement::Paragraph { content } => {
            assert_eq!(content.len(), 1);
            assert_eq!(text_of(&src, &content[0]), "text line");
        },
        other => panic!("expected paragraph, got {:?}", other),
    }
    assert!(matches!(blocks[1], BlockElement::Blockquote { .. }));
}

#[test]
fn code_block_keeps_fence_like_body_lines() {
    // A body line that merely starts with the fence marker does not close
    // the block; only a line that is exactly the marker does.
    let (src, blocks) = blocks_of("```\n```x\n```\n");
    match &blocks[0] {
        BlockElement::Code { lines } => {
            assert_eq!(verbatim_block_content(&src, lines), "```x");
        },
        other => panic!("expected code block, got {:?}", other),
    }
}

#[test]
fn derivation_with_zero_premises() {
    let (src, blocks) = blocks_of("--- ax\nC\n");
    match &blocks[0] {
        BlockElement::Derivation(Derivation::InferenceRule {
            premises,
            conclusion,
            rule_name,
        }) => {
            assert!(premises.is_empty());
            assert_eq!(text_of(&src, &rule_name[0]), "ax");
            assert_eq!(text_of(&src, &conclusion[0]), "C");
        },
        other => panic!("expected derivation, got {:?}", other),
    }
}

#[test]
fn paragraph_absorbs_bodyless_theorem_mark() {
    // A theorem mark without an indented body is not a recognized block
    // start, so a running paragraph absorbs the line.
    let (src, blocks) = blocks_of("x\nTheorem. t\n");
    assert_eq!(blocks.len(), 1);
    match &blocks[0] {
        BlockElement::Paragraph { content } => {
            assert_eq!(content.len(), 2);
            assert_eq!(text_of(&src, &content[0]), "x");
            assert_eq!(text_of(&src, &content[1]), "Theorem. t");
        },
        other => panic!("expected paragraph, got {:?}", other),
    }
}
