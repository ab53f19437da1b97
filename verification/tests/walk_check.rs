use lisette_highlight::ast::{Expression, ExpressionKind, File, Span};
use lisette_highlight::highlight::{expr_walk_ok, file_walk_ok};

fn name(offset: u32, length: u32) -> Expression {
    Expression {
        kind: ExpressionKind::Identifier { value: "x".to_string(), qualified: None, binding_id: None },
        span: Span::new(0, offset, length),
    }
}

fn binary(left: Expression, right: Expression, offset: u32, length: u32) -> Expression {
    Expression {
        kind: ExpressionKind::Binary { left: Box::new(left), right: Box::new(right) },
        span: Span::new(0, offset, length),
    }
}

fn file(source: &str, items: Vec<Expression>) -> File {
    File { id: 0, module_id: "main".to_string(), source: source.to_string(), items }
}

#[test]
fn ordinary_binary_expression_may_be_walked() {
    let f = file("a + b", vec![binary(name(0, 1), name(4, 1), 0, 5)]);
    assert!(file_walk_ok(&f));
}

#[test]
fn gap_that_cuts_a_character_is_refused() {
    // "é" takes bytes 1..3; a left operand ending at byte 2 cuts it in half.
    let source = "aé+b";
    let e = binary(name(0, 2), name(4, 1), 0, 5);
    assert!(!expr_walk_ok(&e, source.as_bytes()));
    assert!(!file_walk_ok(&file(source, vec![e])));
}

#[test]
fn gap_past_the_end_of_the_source_is_refused() {
    let e = binary(name(0, 1), name(40, 1), 0, 41);
    assert!(!file_walk_ok(&file("a + b", vec![e])));
}

#[test]
fn span_past_u32_is_refused() {
    let e = binary(name(u32::MAX - 1, 5), name(0, 1), 0, 1);
    assert!(!file_walk_ok(&file("a + b", vec![e])));
}

#[test]
fn file_without_items_may_be_walked() {
    assert!(file_walk_ok(&file("", Vec::new())));
}
