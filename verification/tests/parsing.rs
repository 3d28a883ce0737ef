use savelang::lexer::tokennize_line;
use savelang::parser::{parse_tokens, ExpressionType, Node};
use savelang::token::Token;

fn tokens_of(src: &str) -> Vec<Token> {
    tokennize_line(src.to_string(), 0, &"test.sv".to_string())
}

#[test]
fn exit_with_literal_parses() {
    let nodes = parse_tokens(tokens_of("exit 5;")).unwrap();
    assert_eq!(nodes.len(), 1);
    match &nodes[0] {
        Node::Exit(e) => assert_eq!(e.expr.value.as_str(), "5"),
        _ => panic!("expected an exit node"),
    }
}

#[test]
fn exit_without_expression_defaults_to_zero() {
    let nodes = parse_tokens(tokens_of("exit;")).unwrap();
    assert_eq!(nodes.len(), 1);
    match &nodes[0] {
        Node::Exit(e) => assert_eq!(e.expr.value.as_str(), "0"),
        _ => panic!("expected an exit node"),
    }
}

#[test]
fn transitive_resolution_succeeds_with_int_kind() {
    let nodes = parse_tokens(tokens_of("save a = 5; save b = a; exit b;")).unwrap();
    assert_eq!(nodes.len(), 3);
    match &nodes[0] {
        Node::Exit(e) => assert_eq!(e.expr.value.as_str(), "5"),
        _ => panic!("expected the exit node first"),
    }
    match &nodes[1] {
        Node::Var(v) => {
            assert_eq!(v.name.as_str(), "a");
            assert_eq!(v.expr.expr_type, ExpressionType::INT);
            assert_eq!(v.expr.value.as_str(), "5");
        },
        _ => panic!("expected a variable node"),
    }
    match &nodes[2] {
        Node::Var(v) => {
            assert_eq!(v.name.as_str(), "b");
            assert_eq!(v.expr.expr_type, ExpressionType::INT);
            assert_eq!(v.expr.value.as_str(), "5");
        },
        _ => panic!("expected a variable node"),
    }
}

#[test]
fn duplicate_declaration_fails() {
    let err = parse_tokens(tokens_of("save a = 1; save a = 2;")).unwrap_err();
    assert_eq!(err.as_str(), "Variable a is declared twice");
}

#[test]
fn unresolved_reference_fails() {
    let err = parse_tokens(tokens_of("exit b;")).unwrap_err();
    assert_eq!(err.as_str(), "Invalid Unknown expression");
}

#[test]
fn unresolved_reference_in_declaration_fails() {
    let err = parse_tokens(tokens_of("save a = b;")).unwrap_err();
    assert_eq!(err.as_str(), "Invalid Unknown expression");
}

#[test]
fn boolean_variable_where_int_required_fails() {
    let err = parse_tokens(tokens_of("save a = true; exit a;")).unwrap_err();
    assert_eq!(err.as_str(), "Expected Int variable found: BOOLEAN");
}

#[test]
fn boolean_binding_itself_is_accepted() {
    let nodes = parse_tokens(tokens_of("save flag = false;")).unwrap();
    assert_eq!(nodes.len(), 1);
    match &nodes[0] {
        Node::Var(v) => {
            assert_eq!(v.name.as_str(), "flag");
            assert_eq!(v.expr.expr_type, ExpressionType::BOOLEAN);
            assert_eq!(v.expr.value.as_str(), "false");
        },
        _ => panic!("expected a variable node"),
    }
}

#[test]
fn no_forward_references() {
    let err = parse_tokens(tokens_of("save a = b; save b = 1;")).unwrap_err();
    assert_eq!(err.as_str(), "Invalid Unknown expression");
}

#[test]
fn malformed_right_hand_side_reported_before_duplicate() {
    let err = parse_tokens(tokens_of("save a = 1; save a = ;")).unwrap_err();
    assert_eq!(err.as_str(), "Invalid expression");
}

#[test]
fn exit_at_end_of_input_fails() {
    let err = parse_tokens(tokens_of("exit")).unwrap_err();
    assert_eq!(err.as_str(), "Unexpected end of input while parsing expression");
}

#[test]
fn declaration_needs_a_name() {
    let err = parse_tokens(tokens_of("save = 1;")).unwrap_err();
    assert_eq!(err.as_str(), "Invalid Variable: Expected variable name");
}

#[test]
fn declaration_needs_equals_sign() {
    let err = parse_tokens(tokens_of("save a 1;")).unwrap_err();
    assert_eq!(err.as_str(), "Invalid Variable, Usage: save <name> = <var>");
}

#[test]
fn declaration_cut_short_fails() {
    let err = parse_tokens(tokens_of("save a")).unwrap_err();
    assert_eq!(err.as_str(), "Invalid Variable, Usage: save <name> = <var>");
}

#[test]
fn exit_expression_must_be_integer_valued() {
    let err = parse_tokens(tokens_of("exit true;")).unwrap_err();
    assert_eq!(err.as_str(), "Invalid expression: expected integer literal");
}

#[test]
fn stray_identifier_at_top_level_fails() {
    let err = parse_tokens(tokens_of("foo;")).unwrap_err();
    assert_eq!(err.as_str(), "Encountered invalid token");
}

#[test]
fn unsupported_top_level_tokens_fail() {
    let err = parse_tokens(tokens_of("ret;")).unwrap_err();
    assert_eq!(err.as_str(), "Unsupported token at top level");
    let err2 = parse_tokens(tokens_of("= 1;")).unwrap_err();
    assert_eq!(err2.as_str(), "Unsupported token at top level");
    let err3 = parse_tokens(tokens_of("7;")).unwrap_err();
    assert_eq!(err3.as_str(), "Unsupported token at top level");
}

#[test]
fn semicolons_alone_parse_to_nothing() {
    let nodes = parse_tokens(tokens_of(";;;")).unwrap();
    assert_eq!(nodes.len(), 0);
}

#[test]
fn kind_names_spelled_for_diagnostics() {
    assert_eq!(ExpressionType::BOOLEAN.name_str(), "BOOLEAN");
    assert_eq!(ExpressionType::INT.name_str(), "INT");
    assert_eq!(ExpressionType::FLOAT.name_str(), "FLOAT");
    assert_eq!(ExpressionType::STRING.name_str(), "STRING");
}
