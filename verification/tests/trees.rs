use axis_parser::engine::ParseError;
use axis_parser::grammar::{Expected, Rule};
use axis_parser::tree::ParseTree;
use axis_parser::AxisParser;

fn nothing() -> Expected {
    Expected::none()
}

fn starts(tree: &ParseTree, out: &mut Vec<usize>) {
    out.push(tree.start);
    for child in &tree.children {
        starts(child, out);
    }
}

fn check_nesting(tree: &ParseTree) {
    assert!(tree.start <= tree.end);
    let mut last = tree.start;
    for child in &tree.children {
        assert!(last <= child.start);
        assert!(child.end <= tree.end);
        last = child.end;
        check_nesting(child);
    }
}

#[test]
fn entry_spans_the_whole_input() {
    let inputs: [&[u8]; 4] = [b"Integer", b"  Integer  ", b"List[Integer]", b"\nA | B\n"];
    for input in inputs {
        let tree = AxisParser::parse(Rule::Expr, input).unwrap();
        assert_eq!(tree.rule, Rule::Expr);
        assert_eq!(tree.start, 0);
        assert_eq!(tree.end, input.len());
    }
}

#[test]
fn tree_of_a_generic() {
    let tree = AxisParser::parse(Rule::Expr, b"List[Integer]").unwrap();
    assert_eq!(tree.children.len(), 1);
    let whole = &tree.children[0];
    assert_eq!((whole.rule, whole.start, whole.end), (Rule::Union, 0, 13));
    assert_eq!(whole.children.len(), 1);
    let apply = &whole.children[0];
    assert_eq!((apply.rule, apply.start, apply.end), (Rule::Apply, 0, 13));
    assert_eq!(apply.children.len(), 2);
    let name = &apply.children[0];
    assert_eq!((name.rule, name.start, name.end), (Rule::Id, 0, 4));
    let argument = &apply.children[1];
    assert_eq!((argument.rule, argument.start, argument.end), (Rule::Union, 5, 12));
    let inner = &argument.children[0];
    assert_eq!((inner.rule, inner.start, inner.end), (Rule::Apply, 5, 12));
    assert_eq!((inner.children[0].rule, inner.children[0].start, inner.children[0].end), (Rule::Id, 5, 12));
}

#[test]
fn tree_of_a_group() {
    let tree = AxisParser::parse(Rule::Group, b" ( A ) rest").unwrap();
    assert_eq!((tree.rule, tree.start, tree.end), (Rule::Group, 1, 6));
    assert_eq!(tree.children.len(), 1);
    assert_eq!((tree.children[0].rule, tree.children[0].start, tree.children[0].end), (Rule::Union, 3, 4));
}

#[test]
fn spans_nest_and_starts_do_not_fall() {
    let inputs: [&[u8]; 4] =
        [b"Integer", b"Map[Text, List[Integer | None]]", b" ( A | B ) | C [ D , ( E ) ] ", b"A|B|C|D"];
    for input in inputs {
        let tree = AxisParser::parse(Rule::Expr, input).unwrap();
        check_nesting(&tree);
        let mut seen = Vec::new();
        starts(&tree, &mut seen);
        for pair in seen.windows(2) {
            assert!(pair[0] <= pair[1]);
        }
    }
}

#[test]
fn other_productions_match_a_prefix() {
    let tree = AxisParser::parse(Rule::Id, b"foo_1 bar").unwrap();
    assert_eq!((tree.rule, tree.start, tree.end), (Rule::Id, 0, 5));
    let tree = AxisParser::parse(Rule::Union, b"A | B ) C").unwrap();
    assert_eq!((tree.rule, tree.start, tree.end), (Rule::Union, 0, 5));
    assert_eq!(tree.children.len(), 2);
    let tree = AxisParser::parse(Rule::Apply, b"A[B] | C").unwrap();
    assert_eq!((tree.rule, tree.start, tree.end), (Rule::Apply, 0, 4));
}

#[test]
fn tokens_match_their_byte() {
    let cases: [(Rule, &[u8]); 6] = [
        (Rule::LeftBracket, b"["),
        (Rule::RightBracket, b"]"),
        (Rule::LeftParen, b"("),
        (Rule::RightParen, b")"),
        (Rule::Comma, b","),
        (Rule::Bar, b"|"),
    ];
    for (rule, input) in cases {
        let tree = AxisParser::parse(rule, input).unwrap();
        assert_eq!((tree.rule, tree.start, tree.end), (rule, 0, 1));
        assert_eq!(
            AxisParser::parse(rule, b"x").unwrap_err(),
            ParseError { pos: 0, expected: Expected::single(rule) }
        );
    }
    let tree = AxisParser::parse(Rule::EndOfInput, b"").unwrap();
    assert_eq!((tree.rule, tree.start, tree.end), (Rule::EndOfInput, 0, 0));
    assert!(AxisParser::parse(Rule::EndOfInput, b" ").is_err());
}

#[test]
fn id_needs_a_letter_or_underscore_first() {
    assert_eq!(
        AxisParser::parse(Rule::Id, b"1abc").unwrap_err(),
        ParseError { pos: 0, expected: Expected { id: true, ..nothing() } }
    );
    assert_eq!(
        AxisParser::parse(Rule::Id, b" abc").unwrap_err(),
        ParseError { pos: 0, expected: Expected { id: true, ..nothing() } }
    );
    assert!(AxisParser::parse(Rule::Id, b"").is_err());
}

#[test]
fn apply_and_group_tell_each_other_apart() {
    assert_eq!(
        AxisParser::parse(Rule::Apply, b" (A)").unwrap_err(),
        ParseError { pos: 1, expected: Expected { id: true, ..nothing() } }
    );
    assert_eq!(
        AxisParser::parse(Rule::Group, b" A").unwrap_err(),
        ParseError { pos: 1, expected: Expected { left_paren: true, ..nothing() } }
    );
}

#[test]
fn failures_report_what_was_open() {
    assert_eq!(
        AxisParser::parse(Rule::Expr, b"").unwrap_err(),
        ParseError { pos: 0, expected: Expected { id: true, left_paren: true, ..nothing() } }
    );
    assert_eq!(
        AxisParser::parse(Rule::Expr, b"A[B").unwrap_err(),
        ParseError {
            pos: 3,
            expected: Expected {
                left_bracket: true,
                right_bracket: true,
                comma: true,
                bar: true,
                ..nothing()
            }
        }
    );
    assert_eq!(
        AxisParser::parse(Rule::Expr, b"(A[B] ").unwrap_err(),
        ParseError { pos: 6, expected: Expected { right_paren: true, bar: true, ..nothing() } }
    );
    assert_eq!(
        AxisParser::parse(Rule::Expr, b"(A)[B]").unwrap_err(),
        ParseError { pos: 3, expected: Expected { bar: true, end_of_input: true, ..nothing() } }
    );
}
