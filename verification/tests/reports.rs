use axis_parser::diagnostic::Diagnostic;
use axis_parser::grammar::Rule;
use axis_parser::parse_type_expr;
use axis_parser::report::{report, report_with};

fn failure(input: &str) -> Diagnostic {
    parse_type_expr(input.to_string()).unwrap_err()
}

#[test]
fn report_shows_the_line_and_marks_the_place() {
    let input = "List[";
    let lines = [" --> 1:6", "  |", "1 | List[", "  |      ^---", "  |", "  = expected Id or LeftParen"];
    assert_eq!(report(input, &failure(input)), lines.join("\n"));
}

#[test]
fn report_of_trailing_text() {
    let input = "A |\n  Integer)";
    let lines = [
        " --> 2:10",
        "  |",
        "2 |   Integer)",
        "  |          ^---",
        "  |",
        "  = expected LeftBracket, Bar, or EndOfInput",
    ];
    assert_eq!(report(input, &failure(input)), lines.join("\n"));
}

#[test]
fn report_differs_from_the_input_and_the_sentence() {
    let input = "Integer)";
    let d = failure(input);
    let text = report(input, &d);
    assert_ne!(text, input);
    assert_ne!(text, d.message);
    assert!(text.contains("1:8"));
}

#[test]
fn report_falls_back_to_the_sentence() {
    let d = Diagnostic {
        offset: 1,
        line: 1,
        column: 2,
        expected: vec![Rule::Bar],
        message: "expected Bar".to_string(),
    };
    assert_eq!(report("\u{f6}", &d), "expected Bar");
    assert_eq!(report("", &d), "expected Bar");
    assert_eq!(report_with(&d, None), "expected Bar");
    assert_eq!(report_with(&d, Some("text".to_string())), "text");
}
