use axis_parser::diagnostic::{list, render, rule_name, translate, Diagnostic};
use axis_parser::engine::ParseError;
use axis_parser::grammar::{Expected, Rule};
use axis_parser::parse_type_expr;

fn failure(input: &str) -> Diagnostic {
    parse_type_expr(input.to_string()).unwrap_err()
}

#[test]
fn malformed_input() {
    let d = failure("List[");
    assert_eq!(d.offset, 5);
    assert_eq!((d.line, d.column), (1, 6));
    assert!(d.expected.contains(&Rule::Id));
    assert_eq!(d.expected, vec![Rule::Id, Rule::LeftParen]);
    assert_eq!(d.message, "expected Id, LeftParen");
}

#[test]
fn trailing_garbage() {
    let d = failure("Integer)");
    assert_eq!(d.offset, 7);
    assert_eq!((d.line, d.column), (1, 8));
    assert_eq!(d.expected, vec![Rule::LeftBracket, Rule::Bar, Rule::EndOfInput]);
    assert!(!d.expected.contains(&Rule::RightParen));
    assert_eq!(d.message, "expected LeftBracket, Bar, EndOfInput");
}

#[test]
fn empty_input_fails() {
    let d = failure("");
    assert_eq!(d.offset, 0);
    assert_eq!((d.line, d.column), (1, 1));
    assert_eq!(d.expected, vec![Rule::Id, Rule::LeftParen]);
}

#[test]
fn blank_input_fails_at_its_end() {
    let d = failure(" \n\t");
    assert_eq!(d.offset, 3);
    assert_eq!((d.line, d.column), (2, 2));
    assert_eq!(d.expected, vec![Rule::Id, Rule::LeftParen]);
}

#[test]
fn trailing_text_after_a_blank() {
    let d = failure("Integer Text");
    assert_eq!(d.offset, 8);
    assert_eq!(d.expected, vec![Rule::LeftBracket, Rule::Bar, Rule::EndOfInput]);
}

#[test]
fn lines_and_columns_count_from_one() {
    let d = failure("List[\n  Integer,\n  )");
    assert_eq!(d.offset, 19);
    assert_eq!((d.line, d.column), (3, 3));
    assert_eq!(d.expected, vec![Rule::Id, Rule::LeftParen]);
    let d = failure("A\n)");
    assert_eq!(d.offset, 2);
    assert_eq!((d.line, d.column), (2, 1));
}

#[test]
fn missing_bracket() {
    let d = failure("Map[K, V");
    assert_eq!(d.offset, 8);
    assert_eq!(
        d.expected,
        vec![Rule::LeftBracket, Rule::RightBracket, Rule::Comma, Rule::Bar]
    );
    assert_eq!(d.message, "expected LeftBracket, RightBracket, Comma, Bar");
}

#[test]
fn missing_term_after_a_bar() {
    let d = failure("A | ");
    assert_eq!(d.offset, 4);
    assert_eq!(d.expected, vec![Rule::Id, Rule::LeftParen]);
}

#[test]
fn missing_parenthesis() {
    let d = failure("(A");
    assert_eq!(d.offset, 2);
    assert_eq!(d.expected, vec![Rule::LeftBracket, Rule::RightParen, Rule::Bar]);
}

#[test]
fn text_outside_ascii_is_no_identifier() {
    let d = failure("Gr\u{f6}sse");
    assert_eq!(d.offset, 2);
    assert_eq!((d.line, d.column), (1, 3));
    assert_eq!(d.expected, vec![Rule::LeftBracket, Rule::Bar, Rule::EndOfInput]);
}

#[test]
fn lists_are_sorted_and_hold_nothing_twice() {
    let all = Expected {
        id: true,
        left_bracket: true,
        right_bracket: true,
        left_paren: true,
        right_paren: true,
        comma: true,
        bar: true,
        end_of_input: true,
    };
    assert_eq!(
        list(all),
        vec![
            Rule::Id,
            Rule::LeftBracket,
            Rule::RightBracket,
            Rule::LeftParen,
            Rule::RightParen,
            Rule::Comma,
            Rule::Bar,
            Rule::EndOfInput
        ]
    );
    assert_eq!(list(Expected::none()), Vec::<Rule>::new());
    assert_eq!(list(Expected::single(Rule::Comma)), vec![Rule::Comma]);
    assert_eq!(list(Expected::single(Rule::Union)), Vec::<Rule>::new());
}

#[test]
fn sentences() {
    assert_eq!(render(&vec![]), "expected ");
    assert_eq!(render(&vec![Rule::Id]), "expected Id");
    assert_eq!(render(&vec![Rule::Comma, Rule::Bar]), "expected Comma, Bar");
    assert_eq!(rule_name(Rule::EndOfInput), "EndOfInput");
    assert_eq!(rule_name(Rule::Expr), "Expr");
}

#[test]
fn translate_places_a_failure() {
    let input = b"ab\ncd\nef";
    let error = ParseError { pos: 7, expected: Expected::single(Rule::Bar) };
    let d = translate(&error, input);
    assert_eq!(d.offset, 7);
    assert_eq!((d.line, d.column), (3, 2));
    assert_eq!(d.expected, vec![Rule::Bar]);
    assert_eq!(d.message, "expected Bar");
    let d = translate(&ParseError { pos: 3, expected: Expected::none() }, input);
    assert_eq!((d.line, d.column), (2, 1));
    let d = translate(&ParseError { pos: 2, expected: Expected::none() }, input);
    assert_eq!((d.line, d.column), (1, 3));
}
