use axis_parser::ast::{build, TypeExpr};
use axis_parser::entry::parse_bytes;
use axis_parser::grammar::Rule;
use axis_parser::{parse_type_expr, AxisParser};

fn id(name: &str) -> TypeExpr {
    TypeExpr::Identifier { name: name.as_bytes().to_vec() }
}

fn generic(name: &str, arguments: Vec<TypeExpr>) -> TypeExpr {
    TypeExpr::Generic { name: name.as_bytes().to_vec(), arguments }
}

fn union(alternatives: Vec<TypeExpr>) -> TypeExpr {
    TypeExpr::Union { alternatives }
}

#[test]
fn simple_identifier() {
    assert_eq!(parse_type_expr("Integer".to_string()), Ok(id("Integer")));
}

#[test]
fn nested_generic() {
    assert_eq!(
        parse_type_expr("List[Integer]".to_string()),
        Ok(generic("List", vec![id("Integer")]))
    );
}

#[test]
fn several_arguments() {
    assert_eq!(
        parse_type_expr("Map[Text, Integer]".to_string()),
        Ok(generic("Map", vec![id("Text"), id("Integer")]))
    );
}

#[test]
fn union_of_two() {
    assert_eq!(
        parse_type_expr("Integer | Text".to_string()),
        Ok(union(vec![id("Integer"), id("Text")]))
    );
}

#[test]
fn union_of_three_without_blanks() {
    assert_eq!(
        parse_type_expr("A|B|C".to_string()),
        Ok(union(vec![id("A"), id("B"), id("C")]))
    );
}

#[test]
fn union_inside_arguments() {
    assert_eq!(
        parse_type_expr("Map[Text, List[Integer | None]]".to_string()),
        Ok(generic(
            "Map",
            vec![id("Text"), generic("List", vec![union(vec![id("Integer"), id("None")])])]
        ))
    );
}

#[test]
fn parentheses_leave_no_node() {
    assert_eq!(parse_type_expr("(Integer)".to_string()), Ok(id("Integer")));
    assert_eq!(parse_type_expr("((Integer))".to_string()), Ok(id("Integer")));
}

#[test]
fn parentheses_keep_a_union_together() {
    assert_eq!(
        parse_type_expr("A | (B | C)".to_string()),
        Ok(union(vec![id("A"), union(vec![id("B"), id("C")])]))
    );
    assert_eq!(
        parse_type_expr("(A | B) | C".to_string()),
        Ok(union(vec![union(vec![id("A"), id("B")]), id("C")]))
    );
}

#[test]
fn white_space_is_insignificant() {
    assert_eq!(
        parse_type_expr("  List [\tInteger ,\r\n Text ]\n".to_string()),
        Ok(generic("List", vec![id("Integer"), id("Text")]))
    );
}

#[test]
fn identifiers_take_digits_and_underscores() {
    assert_eq!(parse_type_expr("_x9_Y".to_string()), Ok(id("_x9_Y")));
    assert!(parse_type_expr("9x".to_string()).is_err());
}

#[test]
fn bytes_and_text_agree() {
    assert_eq!(parse_bytes(b"List[Integer]"), parse_type_expr("List[Integer]".to_string()));
    assert_eq!(parse_bytes(b"List["), parse_type_expr("List[".to_string()));
}

#[test]
fn parsing_twice_gives_the_same() {
    let inputs = ["Integer", "List[Integer]", "List[", "Integer)", "", "A | B", "Map[K, V"];
    for input in inputs {
        assert_eq!(parse_type_expr(input.to_string()), parse_type_expr(input.to_string()));
    }
}

#[test]
fn identifier_round_trip() {
    let names = ["Integer", "x", "_", "a1", "List_of_2"];
    for name in names {
        let tree = AxisParser::parse(Rule::Id, name.as_bytes()).unwrap();
        assert_eq!(tree.rule, Rule::Id);
        assert_eq!((tree.start, tree.end), (0, name.len()));
        assert!(tree.children.is_empty());
        assert_eq!(build(&tree, name.as_bytes()), id(name));
    }
}

#[test]
fn build_reduces_the_tree_of_the_entry_production() {
    let input = b"(List[ A | B ])";
    let tree = AxisParser::parse(Rule::Expr, input).unwrap();
    assert_eq!(build(&tree, input), generic("List", vec![union(vec![id("A"), id("B")])]));
}

#[test]
fn canonical_notation() {
    assert_eq!(id("Integer").canonical(), b"Integer".to_vec());
    assert_eq!(generic("List", vec![id("Integer")]).canonical(), b"List[Integer]".to_vec());
    assert_eq!(
        generic("Map", vec![id("K"), union(vec![id("A"), id("B"), id("C")])]).canonical(),
        b"Map[K, (A | B | C)]".to_vec()
    );
    assert_eq!(union(vec![id("A"), id("B")]).canonical(), b"(A | B)".to_vec());
}

#[test]
fn canonical_notation_parses_to_the_same() {
    let inputs = ["Integer", " List [ A ,B ] ", "A|B", "Map[K, (A | (B|C))] | (D)", "((A))"];
    for input in inputs {
        let expr = parse_type_expr(input.to_string()).unwrap();
        let text = expr.canonical();
        assert_eq!(parse_bytes(&text), Ok(expr));
    }
}
