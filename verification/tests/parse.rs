use l20n::ast::Entry;
use l20n::ast::Identifier;
use l20n::ast::PatternElement;
use l20n::ast::Value;
use l20n::Parser;

fn expected_parse(name: &str, text: &str) {
    let mut p = Parser::new(text);
    match p.parse() {
        Err(e) => panic!("Parse failed: {}: {}", name, e.error_message),
        _ => {}
    }
}

fn expected_failure(name: &str, text: &str) {
    let mut p = Parser::new(text);
    match p.parse() {
        Ok(_) => panic!("Parse unexpectedly worked: {}", name),
        _ => {}
    }
}

fn entity(id: &str, source: &str, text: &str) -> Entry {
    Entry::Entity {
        id: Identifier { name: id.to_string() },
        comment: None,
        value: Value::Pattern {
            source: source.to_string(),
            elements: vec![PatternElement::TextElement { value: text.to_string() }],
        },
    }
}

fn parse_ok(text: &str) -> Vec<Entry> {
    let mut p = Parser::new(text);
    p.parse().expect("expected a successful parse")
}

fn parse_err(text: &str) -> String {
    let mut p = Parser::new(text);
    p.parse().expect_err("expected a failing parse").error_message
}

#[test]
fn it_works() {
    expected_parse("simple", "a = b");
    expected_parse("simple", "a=b");
    expected_parse("simple", "a   =     b");
    expected_parse("multiline",
                   "multi =\n\
                    | abc\n\
                   ");
    expected_failure("comment", "#comment");
    expected_failure("comment", "# comment");
    expected_failure("comment", "#  comment");
}

#[test]
fn single_line_values() {
    assert_eq!(parse_ok("a = b"), vec![entity("a", "b", "b")]);
    assert_eq!(parse_ok("a=b"), vec![entity("a", "b", "b")]);
    assert_eq!(parse_ok("a   =     b"), vec![entity("a", "b", "b")]);
}

#[test]
fn hash_line_fails() {
    assert_eq!(parse_err("#comment"), "Expected an identifier");
}

#[test]
fn multiline_round_trip() {
    assert_eq!(parse_ok("multi =\n| abc\n"), vec![entity("multi", "abc", "abc")]);
}

#[test]
fn multiline_joins_lines_with_newline() {
    assert_eq!(parse_ok("m =\n| a\n| b\n"), vec![entity("m", "ab", "a\nb")]);
}

#[test]
fn multiline_trims_one_indent_space() {
    assert_eq!(parse_ok("m =\n|  x\n"), vec![entity("m", " x", " x")]);
}

#[test]
fn quoted_literal_parses() {
    assert_eq!(parse_ok("a = \"b c\""), vec![entity("a", "b c", "b c")]);
}

#[test]
fn unclosed_quote_fails() {
    assert_eq!(parse_err("a = \"bc"), "Unclosed string");
}

#[test]
fn newline_inside_quoted_fails() {
    assert_eq!(parse_err("a = \"b\nc\""), "Unclosed string");
}

#[test]
fn continuation_after_content_fails() {
    assert_eq!(
        parse_err("a = b\n| c"),
        "Multiline string should have the ID line empty"
    );
}

#[test]
fn parse_is_repeatable() {
    let text = "a = b\nmulti =\n| abc\n";
    let first = parse_ok(text);
    let second = parse_ok(text);
    assert_eq!(first, second);
}

#[test]
fn empty_input_yields_no_entries() {
    assert_eq!(parse_ok(""), vec![]);
}

#[test]
fn whitespace_only_input_yields_no_entries() {
    assert_eq!(parse_ok(" \t\r\n \n"), vec![]);
}

#[test]
fn leading_whitespace_is_skipped() {
    assert_eq!(parse_ok("  \n a = b"), vec![entity("a", "b", "b")]);
}

#[test]
fn several_entries_in_source_order() {
    assert_eq!(
        parse_ok("a = b\nc = d"),
        vec![entity("a", "b", "b"), entity("c", "d", "d")]
    );
}

#[test]
fn missing_equals_fails() {
    assert_eq!(parse_err("a b"), "Expected '='");
    assert_eq!(parse_err("a"), "Expected '='");
}

#[test]
fn empty_value_yields_one_empty_element() {
    assert_eq!(parse_ok("a ="), vec![entity("a", "", "")]);
}

#[test]
fn empty_identifier_is_rejected() {
    assert_eq!(parse_err("= b"), "Expected an identifier");
}

#[test]
fn identifier_characters() {
    assert_eq!(
        parse_ok("_a-b2 = c"),
        vec![entity("_a-b2", "c", "c")]
    );
}

#[test]
fn quote_inside_line_value_is_content() {
    assert_eq!(parse_ok("a = b\"c"), vec![entity("a", "b\"c", "b\"c")]);
}

#[test]
fn second_parse_of_same_parser_sees_exhausted_input() {
    let mut p = Parser::new("a = b");
    assert_eq!(p.parse(), Ok(vec![entity("a", "b", "b")]));
    assert_eq!(p.parse(), Ok(vec![]));
}

#[test]
fn values_may_hold_any_non_structural_characters() {
    assert_eq!(
        parse_ok("greeting = h\u{e9}llo \u{2603}"),
        vec![entity("greeting", "h\u{e9}llo \u{2603}", "h\u{e9}llo \u{2603}")]
    );
}
