use bokuteki::compile::{check_bok_content, split_lines, string_chars};
use bokuteki::document::{src_block_range, BlockElement};
use bokuteki::parse::parse_document;

fn parse(s: &str) -> bokuteki::parse::ParseResult<
    bokuteki::document::Document,
    bokuteki::document::BlockRange,
> {
    let src = split_lines(&string_chars(&s.to_string()));
    let range = src_block_range(&src);
    parse_document(&src, range)
}

#[test]
fn document_with_preamble_imports_and_blocks() {
    let result = parse("%title My Doc\nimport 'lib/foo';\n# H\n");
    assert!(result.errors.is_empty());
    assert!(result.warnings.is_empty());
    assert!(result.rest_range.is_empty());
    let doc = result.value;
    assert_eq!(doc.preamble.len(), 1);
    assert_eq!(doc.preamble[0].0, "title");
    assert_eq!(doc.preamble[0].1, "My Doc");
    assert_eq!(doc.imports.len(), 1);
    assert_eq!(doc.imports[0].segments, vec!["lib".to_string(), "foo".to_string()]);
    assert_eq!(doc.block_elements.len(), 1);
    assert!(matches!(doc.block_elements[0], BlockElement::Heading { .. }));
}

#[test]
fn preamble_last_write_wins() {
    let result = parse("%k a\n%k b\n");
    let doc = result.value;
    assert_eq!(doc.preamble.len(), 2);
    let v = doc.preamble_value(&"k".to_string());
    assert_eq!(v, Some(&"b".to_string()));
    assert_eq!(doc.preamble_value(&"absent".to_string()), None);
}

#[test]
fn preamble_splits_at_first_whitespace_run() {
    // The whole separating run is the delimiter; whitespace inside the
    // value stays.
    let result = parse("%key  two words\n");
    let doc = result.value;
    assert_eq!(doc.preamble[0].0, "key");
    assert_eq!(doc.preamble[0].1, "two words");
}

#[test]
fn preamble_line_without_value_reports_error() {
    let (errors, warnings) = check_bok_content("%key".to_string());
    assert_eq!(errors, vec!["0:4: expected preamble value".to_string()]);
    assert!(warnings.is_empty());
}

#[test]
fn import_without_open_quote_reports_error() {
    let (errors, _) = check_bok_content("import foo';\n".to_string());
    assert_eq!(
        errors,
        vec!["0:7: expected single quote ('), but actual is 'f'.".to_string()]
    );
}

#[test]
fn import_unclosed_quote_reports_error() {
    let (errors, _) = check_bok_content("import 'foo\n".to_string());
    assert_eq!(errors, vec!["0:11: expected single quote (').".to_string()]);
}

#[test]
fn import_invalid_path_character_reports_error() {
    let (errors, _) = check_bok_content("import 'f!o';\n".to_string());
    assert_eq!(
        errors,
        vec!["0:9: '!' is invalid character as imported path.".to_string()]
    );
}

#[test]
fn import_missing_semicolon_reports_error() {
    let (errors, _) = check_bok_content("import 'foo'\n".to_string());
    assert_eq!(errors, vec!["0:12: expected semicolon (';').".to_string()]);
}

#[test]
fn import_wrong_semicolon_character_reports_error() {
    let (errors, _) = check_bok_content("import 'foo' x;\n".to_string());
    assert_eq!(
        errors,
        vec!["0:13: expected semicolon (';'), but actual is 'x'.".to_string()]
    );
}

#[test]
fn import_trailing_garbage_reports_error() {
    let (errors, _) = check_bok_content("import 'foo'; x\n".to_string());
    assert_eq!(errors, vec!["0:14: unexpected character 'x'.".to_string()]);
}

#[test]
fn import_duplicates_are_preserved_in_order() {
    let result = parse("import 'a';\nimport 'b';\nimport 'a';\n");
    assert!(result.errors.is_empty());
    let doc = result.value;
    assert_eq!(doc.imports.len(), 3);
    assert_eq!(doc.imports[0].segments, vec!["a".to_string()]);
    assert_eq!(doc.imports[1].segments, vec!["b".to_string()]);
    assert_eq!(doc.imports[2].segments, vec!["a".to_string()]);
}

#[test]
fn import_backslash_separates_segments() {
    let result = parse("import 'a\\b_c-9';\n");
    assert!(result.errors.is_empty());
    let doc = result.value;
    assert_eq!(doc.imports[0].segments, vec!["a".to_string(), "b_c-9".to_string()]);
}

#[test]
fn malformed_prologue_still_parses_rest_of_document() {
    // One malformed construct never aborts the rest: the bad import line is
    // reported, and the block elements after it still parse.
    let result = parse("import 'f!o';\n# h\nbody\n");
    assert_eq!(result.errors.len(), 1);
    assert_eq!(result.value.block_elements.len(), 2);
    assert!(result.rest_range.is_empty());
}

#[test]
fn errors_accumulate_across_lines_in_order() {
    let (errors, _) = check_bok_content("%a\n%b\nimport 'x\n".to_string());
    assert_eq!(
        errors,
        vec![
            "0:2: expected preamble value".to_string(),
            "1:2: expected preamble value".to_string(),
            "2:9: expected single quote (').".to_string(),
        ]
    );
}
