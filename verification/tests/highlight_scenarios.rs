use std::collections::HashMap;

use lisette_highlight::ast::{Binding, Expression, ExpressionKind, File, Pattern, Span};
use lisette_highlight::builder::{SemanticToken, SemanticTokens};
use lisette_highlight::highlight::compute_semantic_tokens;
use lisette_highlight::position::LineIndex;
use lisette_highlight::snapshot::{AnalysisSnapshot, Definitions};

const ENUM: u32 = 1;
const STRUCT: u32 = 3;
const FUNCTION: u32 = 5;
const PARAMETER: u32 = 8;
const OPERATOR: u32 = 15;
const DECLARATION: u32 = 1;

fn empty_snapshot() -> AnalysisSnapshot {
    AnalysisSnapshot {
        definitions: Definitions::new(),
        bindings: HashMap::new(),
        comments: Vec::new(),
        doc_comments: Vec::new(),
    }
}

fn span(offset: u32, length: u32) -> Span {
    Span::new(0, offset, length)
}

fn tokens_of(source: &str, items: Vec<Expression>) -> SemanticTokens {
    let file = File { id: 0, module_id: "main".to_string(), source: source.to_string(), items };
    let line_index = LineIndex::new(source);
    compute_semantic_tokens(&file, &empty_snapshot(), &line_index)
}

fn token(delta_line: u32, delta_start: u32, length: u32, token_type: u32, modifiers: u32) -> SemanticToken {
    SemanticToken { delta_line, delta_start, length, token_type, token_modifiers_bitset: modifiers }
}

#[test]
fn struct_name_is_a_declared_struct() {
    let source = "struct Point { x: int, y: int }";
    let item = Expression { kind: ExpressionKind::Struct { name_span: span(7, 5) }, span: span(0, 31) };
    let tokens = tokens_of(source, vec![item]);
    assert!(tokens.result_id.is_none());
    assert_eq!(tokens.data, vec![token(0, 7, 5, STRUCT, DECLARATION)]);
}

#[test]
fn function_name_and_parameters_are_declared() {
    let source = "fn add(x: int, y: int) -> int { x + y }";
    let params = vec![
        Binding { pattern: Pattern::Identifier { span: span(7, 1) } },
        Binding { pattern: Pattern::Identifier { span: span(15, 1) } },
    ];
    let name = |offset: u32| Expression {
        kind: ExpressionKind::Identifier { value: "v".to_string(), qualified: None, binding_id: None },
        span: span(offset, 1),
    };
    let sum = Expression {
        kind: ExpressionKind::Binary { left: Box::new(name(32)), right: Box::new(name(36)) },
        span: span(32, 5),
    };
    let body = Expression { kind: ExpressionKind::Block { items: vec![sum] }, span: span(30, 9) };
    let item = Expression {
        kind: ExpressionKind::Function { name_span: span(3, 3), params, body: Box::new(body) },
        span: span(0, 39),
    };
    let tokens = tokens_of(source, vec![item]);
    assert_eq!(
        tokens.data,
        vec![
            token(0, 3, 3, FUNCTION, DECLARATION),
            token(0, 4, 1, PARAMETER, DECLARATION),
            token(0, 8, 1, PARAMETER, DECLARATION),
            token(0, 19, 1, OPERATOR, 0),
        ]
    );
}

#[test]
fn enum_name_is_a_declared_enum() {
    let source = "enum Color { Red, Green, Blue }";
    let item = Expression { kind: ExpressionKind::Enum { name_span: span(5, 5) }, span: span(0, 31) };
    let tokens = tokens_of(source, vec![item]);
    assert_eq!(tokens.data, vec![token(0, 5, 5, ENUM, DECLARATION)]);
}

#[test]
fn items_on_later_lines_are_relative_to_the_previous_token() {
    let source = "struct A {}\n\nenum B {}";
    let items = vec![
        Expression { kind: ExpressionKind::Struct { name_span: span(7, 1) }, span: span(0, 11) },
        Expression { kind: ExpressionKind::Enum { name_span: span(18, 1) }, span: span(13, 9) },
    ];
    let tokens = tokens_of(source, items);
    assert_eq!(
        tokens.data,
        vec![token(0, 7, 1, STRUCT, DECLARATION), token(2, 5, 1, ENUM, DECLARATION)]
    );
}

#[test]
fn an_empty_file_has_no_tokens() {
    let tokens = tokens_of("", Vec::new());
    assert!(tokens.data.is_empty());
    assert!(tokens.result_id.is_none());
}
