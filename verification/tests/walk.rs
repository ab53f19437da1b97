use std::collections::HashMap;

use lisette_highlight::ast::{
    Binding, Expression, ExpressionKind, FieldPattern, File, FormatStringPart, ImportAlias, Literal,
    MatchArm, Pattern, RestPattern, SelectArm, SelectArmPattern, Span,
};
use lisette_highlight::builder::{SemanticToken, SemanticTokens};
use lisette_highlight::highlight::compute_semantic_tokens;
use lisette_highlight::position::LineIndex;
use lisette_highlight::snapshot::{
    AnalysisSnapshot, BindingFact, Definition, DefinitionBody, Definitions, StructField, Type,
};

const TYPE: u32 = 0;
const ENUM: u32 = 1;
const ENUM_MEMBER: u32 = 2;
const STRUCT: u32 = 3;
const INTERFACE: u32 = 4;
const FUNCTION: u32 = 5;
const METHOD: u32 = 6;
const VARIABLE: u32 = 7;
const PARAMETER: u32 = 8;
const PROPERTY: u32 = 9;
const NAMESPACE: u32 = 10;
const KEYWORD: u32 = 11;
const COMMENT: u32 = 12;
const STRING: u32 = 13;
const NUMBER: u32 = 14;
const OPERATOR: u32 = 15;
const DECLARATION: u32 = 1;
const CONSTANT: u32 = 7;
const DOCUMENTATION: u32 = 32;

fn sp(offset: u32, length: u32) -> Span {
    Span::new(0, offset, length)
}

fn ex(kind: ExpressionKind, offset: u32, length: u32) -> Expression {
    Expression { kind, span: sp(offset, length) }
}

fn bx(e: Expression) -> Box<Expression> {
    Box::new(e)
}

fn name(value: &str, offset: u32, length: u32) -> Expression {
    ex(
        ExpressionKind::Identifier { value: value.to_string(), qualified: None, binding_id: None },
        offset,
        length,
    )
}

fn bound(id: u32, offset: u32, length: u32) -> Expression {
    ex(
        ExpressionKind::Identifier { value: "v".to_string(), qualified: None, binding_id: Some(id) },
        offset,
        length,
    )
}

fn integer(offset: u32, length: u32) -> Expression {
    ex(ExpressionKind::Literal { literal: Literal::Integer }, offset, length)
}

fn snapshot() -> AnalysisSnapshot {
    AnalysisSnapshot {
        definitions: Definitions::new(),
        bindings: HashMap::new(),
        comments: Vec::new(),
        doc_comments: Vec::new(),
    }
}

fn run(source: &str, items: Vec<Expression>, snap: &AnalysisSnapshot) -> SemanticTokens {
    let file = File { id: 0, module_id: "main".to_string(), source: source.to_string(), items };
    compute_semantic_tokens(&file, snap, &LineIndex::new(source))
}

fn tk(delta_line: u32, delta_start: u32, length: u32, token_type: u32, modifiers: u32) -> SemanticToken {
    SemanticToken { delta_line, delta_start, length, token_type, token_modifiers_bitset: modifiers }
}

fn def(body: DefinitionBody, ty: Type) -> Definition {
    Definition { body, ty }
}

#[test]
fn binary_operator_is_trimmed() {
    let e = ex(ExpressionKind::Binary { left: bx(name("a", 0, 1)), right: bx(name("b", 6, 1)) }, 0, 7);
    assert_eq!(run("a  +  b", vec![e], &snapshot()).data, vec![tk(0, 3, 1, OPERATOR, 0)]);
}

#[test]
fn binary_operator_trims_unicode_white_space() {
    let source = "a\u{a0}==\u{3000}b";
    let e = ex(ExpressionKind::Binary { left: bx(name("a", 0, 1)), right: bx(name("b", 8, 1)) }, 0, 9);
    assert_eq!(run(source, vec![e], &snapshot()).data, vec![tk(0, 2, 2, OPERATOR, 0)]);
}

#[test]
fn only_white_space_between_operands_is_no_operator() {
    let e = ex(ExpressionKind::Binary { left: bx(name("a", 0, 1)), right: bx(name("b", 2, 1)) }, 0, 3);
    assert!(run("a b", vec![e], &snapshot()).data.is_empty());
}

#[test]
fn unary_operator_precedes_its_operand() {
    let e = ex(ExpressionKind::Unary { expression: bx(integer(2, 1)) }, 0, 3);
    assert_eq!(
        run("- 1", vec![e], &snapshot()).data,
        vec![tk(0, 0, 1, OPERATOR, 0), tk(0, 2, 1, NUMBER, 0)]
    );
}

#[test]
fn range_operator_stands_between_its_bounds() {
    let e = ex(ExpressionKind::Range { start: Some(bx(integer(0, 1))), end: Some(bx(integer(3, 2))) }, 0, 5);
    assert_eq!(
        run("0..10", vec![e], &snapshot()).data,
        vec![tk(0, 0, 1, NUMBER, 0), tk(0, 1, 2, OPERATOR, 0), tk(0, 2, 2, NUMBER, 0)]
    );
}

#[test]
fn open_range_finds_its_operator() {
    let e = ex(ExpressionKind::Range { start: None, end: Some(bx(name("n", 2, 1))) }, 0, 3);
    assert_eq!(run("..n", vec![e], &snapshot()).data, vec![tk(0, 0, 2, OPERATOR, 0)]);
    let e = ex(ExpressionKind::Range { start: Some(bx(name("n", 0, 1))), end: None }, 0, 3);
    assert_eq!(run("n..", vec![e], &snapshot()).data, vec![tk(0, 1, 2, OPERATOR, 0)]);
}

#[test]
fn propagation_marks_its_question_mark() {
    let call = ex(ExpressionKind::Call { expression: bx(name("f", 0, 1)), args: Vec::new() }, 0, 3);
    let e = ex(ExpressionKind::Propagate { expression: bx(call) }, 0, 4);
    assert_eq!(run("f()?", vec![e], &snapshot()).data, vec![tk(0, 3, 1, OPERATOR, 0)]);
}

#[test]
fn assignment_operator_stands_between_both_sides() {
    let e = ex(ExpressionKind::Assignment { target: bx(name("x", 0, 1)), value: bx(integer(4, 1)) }, 0, 5);
    assert_eq!(
        run("x = 1", vec![e], &snapshot()).data,
        vec![tk(0, 2, 1, OPERATOR, 0), tk(0, 2, 1, NUMBER, 0)]
    );
}

fn point_snapshot() -> AnalysisSnapshot {
    let mut snap = snapshot();
    snap.bindings.insert(7, BindingFact { is_param: false });
    snap.definitions.insert(
        "main.Point".to_string(),
        def(
            DefinitionBody::Struct { fields: vec![StructField { name: "x".to_string() }] },
            Type::Other,
        ),
    );
    snap.definitions.insert(
        "main.Point.len".to_string(),
        def(
            DefinitionBody::Value,
            Type::Function { param_type_names: vec![Some("main.Point".to_string())] },
        ),
    );
    snap.definitions.insert(
        "main.Point.new".to_string(),
        def(
            DefinitionBody::Value,
            Type::Forall {
                body: Box::new(Type::Function { param_type_names: vec![Some("int".to_string())] }),
            },
        ),
    );
    snap.definitions.insert(
        "main.Point.Alias".to_string(),
        def(DefinitionBody::TypeAlias, Type::Other),
    );
    snap
}

fn dot(member: &str, receiver: Option<&str>, source_len: u32) -> Expression {
    ex(
        ExpressionKind::DotAccess {
            expression: bx(bound(7, 0, 1)),
            member: member.to_string(),
            receiver_type: receiver.map(|r| r.to_string()),
        },
        0,
        source_len,
    )
}

#[test]
fn field_access_is_a_property() {
    let e = dot("x", Some("main.Point"), 3);
    assert_eq!(
        run("p.x", vec![e], &point_snapshot()).data,
        vec![tk(0, 0, 1, VARIABLE, 0), tk(0, 2, 1, PROPERTY, 0)]
    );
}

#[test]
fn method_taking_the_receiver_is_a_method() {
    let e = dot("len", Some("main.Point"), 5);
    assert_eq!(
        run("p.len", vec![e], &point_snapshot()).data,
        vec![tk(0, 0, 1, VARIABLE, 0), tk(0, 2, 3, METHOD, 0)]
    );
}

#[test]
fn associated_function_is_a_function() {
    let e = dot("new", Some("main.Point"), 5);
    assert_eq!(
        run("p.new", vec![e], &point_snapshot()).data,
        vec![tk(0, 0, 1, VARIABLE, 0), tk(0, 2, 3, FUNCTION, 0)]
    );
}

#[test]
fn unknown_members_are_properties() {
    let snap = point_snapshot();
    let e = dot("y", Some("main.Point"), 3);
    assert_eq!(run("p.y", vec![e], &snap).data, vec![tk(0, 0, 1, VARIABLE, 0), tk(0, 2, 1, PROPERTY, 0)]);
    let e = dot("Alias", Some("main.Point"), 7);
    assert_eq!(
        run("p.Alias", vec![e], &snap).data,
        vec![tk(0, 0, 1, VARIABLE, 0), tk(0, 2, 5, PROPERTY, 0)]
    );
    let e = dot("len", None, 5);
    assert_eq!(run("p.len", vec![e], &snap).data, vec![tk(0, 0, 1, VARIABLE, 0), tk(0, 2, 3, PROPERTY, 0)]);
}

#[test]
fn member_as_long_as_the_access_gets_no_token() {
    let e = dot("abc", Some("main.Point"), 3);
    assert_eq!(run("abc", vec![e], &point_snapshot()).data, vec![tk(0, 0, 1, VARIABLE, 0)]);
}

fn names_snapshot() -> AnalysisSnapshot {
    let mut snap = snapshot();
    snap.bindings.insert(1, BindingFact { is_param: true });
    snap.bindings.insert(2, BindingFact { is_param: false });
    snap.definitions.insert("main.Shape".to_string(), def(DefinitionBody::Interface, Type::Other));
    snap.definitions.insert("main.Id".to_string(), def(DefinitionBody::TypeAlias, Type::Other));
    snap.definitions.insert("main.Dir".to_string(), def(DefinitionBody::ValueEnum, Type::Other));
    snap.definitions.insert("main.limit".to_string(), def(DefinitionBody::Value, Type::Other));
    snap.definitions.insert(
        "main.helper".to_string(),
        def(DefinitionBody::Value, Type::Function { param_type_names: Vec::new() }),
    );
    snap
}

fn qualified(q: &str, binding_id: Option<u32>, offset: u32, length: u32) -> Expression {
    ex(
        ExpressionKind::Identifier {
            value: "v".to_string(),
            qualified: Some(q.to_string()),
            binding_id,
        },
        offset,
        length,
    )
}

#[test]
fn qualified_names_take_the_kind_of_their_definition() {
    let snap = names_snapshot();
    let items = vec![
        qualified("main.Shape", None, 0, 1),
        qualified("main.Id", None, 2, 1),
        qualified("main.Dir", None, 4, 1),
        qualified("main.limit", None, 6, 1),
        qualified("main.helper", None, 8, 1),
    ];
    assert_eq!(
        run("a b c d e", items, &snap).data,
        vec![
            tk(0, 0, 1, INTERFACE, 0),
            tk(0, 2, 1, TYPE, 0),
            tk(0, 2, 1, ENUM, 0),
            tk(0, 2, 1, VARIABLE, 0),
            tk(0, 2, 1, FUNCTION, 0),
        ]
    );
}

#[test]
fn unresolved_qualified_names_fall_back_to_their_binding() {
    let snap = names_snapshot();
    let items = vec![
        qualified("main.missing", Some(1), 0, 1),
        qualified("main.missing", Some(2), 2, 1),
        qualified("main.missing", Some(3), 4, 1),
        qualified("main.missing", None, 6, 1),
    ];
    assert_eq!(
        run("a b c d", items, &snap).data,
        vec![tk(0, 0, 1, PARAMETER, 0), tk(0, 2, 1, VARIABLE, 0)]
    );
}

#[test]
fn local_names_are_parameters_or_variables() {
    let snap = names_snapshot();
    let items = vec![bound(1, 0, 1), bound(2, 2, 1), bound(9, 4, 1)];
    assert_eq!(
        run("a b c", items, &snap).data,
        vec![tk(0, 0, 1, PARAMETER, 0), tk(0, 2, 1, VARIABLE, 0)]
    );
}

#[test]
fn plain_names_are_looked_up_in_the_module() {
    let snap = names_snapshot();
    let items = vec![name("helper", 0, 6), name("Shape", 7, 5), name("nothing", 13, 7)];
    assert_eq!(
        run("helper Shape nothing", items, &snap).data,
        vec![tk(0, 0, 6, FUNCTION, 0), tk(0, 7, 5, INTERFACE, 0)]
    );
}

#[test]
fn literals_by_kind() {
    let items = vec![
        ex(ExpressionKind::Literal { literal: Literal::Str }, 0, 3),
        ex(ExpressionKind::Literal { literal: Literal::Char }, 4, 3),
        ex(ExpressionKind::Literal { literal: Literal::Boolean }, 8, 4),
        ex(ExpressionKind::Literal { literal: Literal::Float }, 13, 3),
        ex(ExpressionKind::Literal { literal: Literal::Imaginary }, 17, 2),
    ];
    assert_eq!(
        run("\"a\" 'b' true 1.5 2i", items, &snapshot()).data,
        vec![
            tk(0, 0, 3, STRING, 0),
            tk(0, 4, 3, STRING, 0),
            tk(0, 4, 4, KEYWORD, 0),
            tk(0, 5, 3, NUMBER, 0),
            tk(0, 4, 2, NUMBER, 0),
        ]
    );
}

#[test]
fn format_string_marks_itself_then_its_parts() {
    let snap = names_snapshot();
    let parts = vec![FormatStringPart::Text, FormatStringPart::Expression(bx(bound(1, 4, 1)))];
    let e = ex(ExpressionKind::Literal { literal: Literal::FormatString(parts) }, 0, 7);
    assert_eq!(
        run("f\"x{a}\"", vec![e], &snap).data,
        vec![tk(0, 0, 7, STRING, 0), tk(0, 4, 1, PARAMETER, 0)]
    );
}

#[test]
fn slice_literal_marks_its_elements() {
    let e = ex(ExpressionKind::Literal { literal: Literal::Slice(vec![integer(1, 1), integer(4, 1)]) }, 0, 6);
    assert_eq!(
        run("[1, 2]", vec![e], &snapshot()).data,
        vec![tk(0, 1, 1, NUMBER, 0), tk(0, 3, 1, NUMBER, 0)]
    );
}

#[test]
fn let_patterns_declare_names_and_match_variants() {
    // let (a, Some(b)) = 1
    let pattern = Pattern::Tuple {
        elements: vec![
            Pattern::Identifier { span: sp(5, 1) },
            Pattern::EnumVariant { fields: vec![Pattern::Identifier { span: sp(13, 1) }], span: sp(8, 7) },
            Pattern::WildCard,
        ],
    };
    let e = ex(ExpressionKind::Let { binding: Binding { pattern }, value: bx(integer(19, 1)) }, 0, 20);
    assert_eq!(
        run("let (a, Some(b)) = 1", vec![e], &snapshot()).data,
        vec![
            tk(0, 5, 1, VARIABLE, DECLARATION),
            tk(0, 3, 7, ENUM_MEMBER, 0),
            tk(0, 5, 1, VARIABLE, DECLARATION),
            tk(0, 6, 1, NUMBER, 0),
        ]
    );
}

#[test]
fn struct_as_slice_and_or_patterns() {
    let pattern = Pattern::Or {
        patterns: vec![
            Pattern::Struct {
                fields: vec![FieldPattern { value: Pattern::Identifier { span: sp(4, 1) } }],
                span: sp(0, 1),
            },
            Pattern::AsBinding { pattern: Box::new(Pattern::Literal), span: sp(8, 1) },
            Pattern::Slice {
                prefix: vec![Pattern::Identifier { span: sp(11, 1) }],
                rest: RestPattern::Bind { span: sp(14, 1) },
            },
            Pattern::Slice { prefix: Vec::new(), rest: RestPattern::Unbound },
            Pattern::Unit,
        ],
    };
    let e = ex(ExpressionKind::Let { binding: Binding { pattern }, value: bx(integer(16, 1)) }, 0, 17);
    assert_eq!(
        run("P { x } | c | [d, e] 1", vec![e], &snapshot()).data,
        vec![
            tk(0, 0, 1, ENUM_MEMBER, 0),
            tk(0, 4, 1, VARIABLE, DECLARATION),
            tk(0, 4, 1, VARIABLE, DECLARATION),
            tk(0, 3, 1, VARIABLE, DECLARATION),
            tk(0, 3, 1, VARIABLE, DECLARATION),
            tk(0, 2, 1, NUMBER, 0),
        ]
    );
}

#[test]
fn match_arms_mark_pattern_guard_and_body() {
    let arm = MatchArm {
        pattern: Pattern::Identifier { span: sp(0, 1) },
        guard: Some(bx(integer(2, 1))),
        expression: bx(integer(4, 1)),
    };
    let e = ex(ExpressionKind::Match { arms: vec![arm] }, 0, 5);
    assert_eq!(
        run("x 1 2", vec![e], &snapshot()).data,
        vec![tk(0, 0, 1, VARIABLE, DECLARATION), tk(0, 2, 1, NUMBER, 0), tk(0, 2, 1, NUMBER, 0)]
    );
}

#[test]
fn select_marks_only_arm_bodies() {
    let receive = MatchArm {
        pattern: Pattern::Identifier { span: sp(0, 1) },
        guard: Some(bx(integer(2, 1))),
        expression: bx(integer(4, 1)),
    };
    let arms = vec![
        SelectArm { pattern: SelectArmPattern::MatchReceive { arms: vec![receive] } },
        SelectArm { pattern: SelectArmPattern::Send { body: bx(integer(6, 1)) } },
    ];
    let e = ex(ExpressionKind::Select { arms }, 0, 7);
    assert_eq!(
        run("x 1 2 3", vec![e], &snapshot()).data,
        vec![tk(0, 4, 1, NUMBER, 0), tk(0, 2, 1, NUMBER, 0)]
    );
}

#[test]
fn constants_are_read_only_and_static_and_imports_are_namespaces() {
    let items = vec![
        ex(ExpressionKind::Const { identifier_span: sp(6, 1) }, 0, 11),
        ex(
            ExpressionKind::ModuleImport {
                name_span: sp(21, 4),
                alias: Some(ImportAlias::Named { span: sp(19, 1) }),
            },
            12,
            13,
        ),
        ex(ExpressionKind::ModuleImport { name_span: sp(33, 3), alias: None }, 26, 10),
    ];
    assert_eq!(
        run("const N = 1 import x \"io\" import \"z\"", items, &snapshot()).data,
        vec![
            tk(0, 6, 1, VARIABLE, CONSTANT),
            tk(0, 13, 1, NAMESPACE, DECLARATION),
            tk(0, 2, 4, NAMESPACE, 0),
            tk(0, 12, 3, NAMESPACE, 0),
        ]
    );
}

#[test]
fn struct_literal_names_a_constructor() {
    let call = ex(
        ExpressionKind::StructCall { name_span: sp(0, 1), variant: false, field_values: vec![integer(7, 1)] },
        0,
        10,
    );
    assert_eq!(
        run("P { x: 1 }", vec![call], &snapshot()).data,
        vec![tk(0, 0, 1, FUNCTION, 0), tk(0, 7, 1, NUMBER, 0)]
    );
    let variant = ex(
        ExpressionKind::StructCall { name_span: sp(2, 1), variant: true, field_values: Vec::new() },
        0,
        6,
    );
    assert_eq!(run("E.A {}", vec![variant], &snapshot()).data, vec![tk(0, 2, 1, ENUM_MEMBER, 0)]);
}

#[test]
fn comments_and_items_come_in_document_order() {
    let mut snap = snapshot();
    snap.comments = vec![(0, 4)];
    snap.doc_comments = vec![(5, 5)];
    let source = "// a\n/// b\nenum E {}";
    let item = ex(ExpressionKind::Enum { name_span: sp(16, 1) }, 11, 9);
    assert_eq!(
        run(source, vec![item], &snap).data,
        vec![
            tk(0, 0, 4, COMMENT, 0),
            tk(1, 0, 5, COMMENT, DOCUMENTATION),
            tk(1, 5, 1, ENUM, DECLARATION),
        ]
    );
}

#[test]
fn nested_forms_mark_their_parts_in_order() {
    let call = ex(
        ExpressionKind::Call { expression: bx(name("f", 0, 1)), args: vec![integer(2, 1), integer(5, 1)] },
        0,
        7,
    );
    let block = ex(
        ExpressionKind::Block {
            items: vec![
                call,
                ex(ExpressionKind::Return { expression: bx(integer(8, 1)) }, 8, 1),
                ex(ExpressionKind::Continue, 9, 1),
                ex(ExpressionKind::Break { value: Some(bx(integer(10, 1))) }, 10, 1),
            ],
        },
        0,
        11,
    );
    assert_eq!(
        run("f(1, 2) 345", vec![block], &snapshot()).data,
        vec![
            tk(0, 2, 1, NUMBER, 0),
            tk(0, 3, 1, NUMBER, 0),
            tk(0, 3, 1, NUMBER, 0),
            tk(0, 2, 1, NUMBER, 0),
        ]
    );
}

#[test]
fn impl_methods_are_declared_methods_with_parameters_and_bodies() {
    let body = ex(ExpressionKind::Block { items: vec![integer(19, 1)] }, 17, 5);
    let method = ex(
        ExpressionKind::Function {
            name_span: sp(12, 1),
            params: vec![Binding { pattern: Pattern::Identifier { span: sp(14, 1) } }],
            body: bx(body),
        },
        9,
        13,
    );
    let e = ex(ExpressionKind::ImplBlock { methods: vec![method] }, 0, 24);
    assert_eq!(
        run("impl P { fn m(s) { 1 } }", vec![e], &snapshot()).data,
        vec![
            tk(0, 12, 1, METHOD, DECLARATION),
            tk(0, 2, 1, PARAMETER, DECLARATION),
            tk(0, 5, 1, NUMBER, 0),
        ]
    );
}

#[test]
fn lambda_parameters_are_declared_parameters() {
    let e = ex(
        ExpressionKind::Lambda {
            params: vec![Binding { pattern: Pattern::Identifier { span: sp(1, 1) } }],
            body: bx(integer(4, 1)),
        },
        0,
        5,
    );
    assert_eq!(
        run("|x| 1", vec![e], &snapshot()).data,
        vec![tk(0, 1, 1, PARAMETER, DECLARATION), tk(0, 3, 1, NUMBER, 0)]
    );
}

#[test]
fn destructured_parameters_bind_variables() {
    let pattern = Pattern::Tuple {
        elements: vec![Pattern::Identifier { span: sp(2, 1) }, Pattern::Identifier { span: sp(5, 1) }],
    };
    let e = ex(
        ExpressionKind::Lambda { params: vec![Binding { pattern }], body: bx(integer(9, 1)) },
        0,
        10,
    );
    assert_eq!(
        run("|(a, b)| 1", vec![e], &snapshot()).data,
        vec![
            tk(0, 2, 1, VARIABLE, DECLARATION),
            tk(0, 3, 1, VARIABLE, DECLARATION),
            tk(0, 4, 1, NUMBER, 0),
        ]
    );
}

#[test]
fn binary_operator_lands_between_its_operands() {
    let e = ex(ExpressionKind::Binary { left: bx(integer(0, 1)), right: bx(integer(4, 2)) }, 0, 6);
    assert_eq!(
        run("1 + 22", vec![e], &snapshot()).data,
        vec![tk(0, 0, 1, NUMBER, 0), tk(0, 2, 1, OPERATOR, 0), tk(0, 2, 2, NUMBER, 0)]
    );
}

#[test]
fn comment_above_an_item_comes_first() {
    let mut snap = snapshot();
    snap.comments = vec![(0, 7)];
    let item = ex(ExpressionKind::Struct { name_span: sp(15, 1) }, 8, 11);
    assert_eq!(
        run("// note\nstruct P {}", vec![item], &snap).data,
        vec![tk(0, 0, 7, COMMENT, 0), tk(1, 7, 1, STRUCT, DECLARATION)]
    );
}

#[test]
fn names_inside_a_function_body_are_highlighted() {
    let mut snap = snapshot();
    snap.bindings.insert(1, BindingFact { is_param: true });
    let body = ex(ExpressionKind::Block { items: vec![bound(1, 10, 1)] }, 8, 5);
    let f = ex(
        ExpressionKind::Function {
            name_span: sp(3, 1),
            params: vec![Binding { pattern: Pattern::Identifier { span: sp(5, 1) } }],
            body: bx(body),
        },
        0,
        13,
    );
    assert_eq!(
        run("fn f(a) { a }", vec![f], &snap).data,
        vec![
            tk(0, 3, 1, FUNCTION, DECLARATION),
            tk(0, 2, 1, PARAMETER, DECLARATION),
            tk(0, 5, 1, PARAMETER, 0),
        ]
    );
}
