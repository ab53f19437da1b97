//! Which spans of a parsed file get which token: the walk over its items,
//! patterns and comments, stated as the sequence of marks it requests.
use vstd::prelude::*;
use vstd::utf8::encode_utf8;
use vstd::string::StringSliceAdditionalSpecFns;
use crate::ast::{
    Binding, Expression, ExpressionKind, FieldPattern, File, FormatStringPart, ImportAlias, Literal,
    MatchArm, Pattern, RestPattern, SelectArm, SelectArmPattern, Span,
};
use crate::builder::{
    lemma_mark_tokens_concat, lemma_mark_tokens_concat3, lemma_mark_tokens_concat4,
    lemma_encode_keeps_tokens, lemma_mark_tokens_empty, lemma_mark_tokens_from_marks, mark_tokens,
    decode, encode, in_document_order, lemma_build_decodes, lemma_sort_by_place, sort_by_place,
    AbsoluteToken, Mark, SemanticTokens,
    SemanticTokensBuilder,
};
use crate::legend::{
    first_index_of, lemma_first_index_of, lemma_small_legend_fits, modifiers_fit, lemma_type_index, modifier_bit,
    modifier_bits, type_index, TokenModifier,
    TokenModifierMap, TokenType,
    TokenTypeMap,
};
use crate::position::LineIndex;
use crate::snapshot::{AnalysisSnapshot, Definition, DefinitionBody, StructField, Type};
use crate::text::{
    find_byte_in, find_dot_dot, find_dot_dot_in, is_char_boundary, leading_ws, leading_ws_len,
    lemma_find_dot_dot,
    lemma_leading_ws_bound, lemma_trailing_ws_bound, slice_ok, trailing_ws_len, trimmed,
};

verus! {



/// The UTF-8 bytes of the file's source.
pub open spec fn source_bytes(file: File) -> Seq<u8> {
    encode_utf8(file.source@)
}

/// A single mark.
pub open spec fn one(span: Span, token_type: u32, modifiers: u32) -> Seq<Mark> {
    seq![Mark { span, token_type, modifiers }]
}

/// The legend index of `t`.
pub open spec fn tok(tys: Seq<TokenType>, t: TokenType) -> u32 {
    type_index(tys, t)
}

/// The bitset that marks a declaration.
pub open spec fn decl_bits(mods: Seq<TokenModifier>) -> u32 {
    modifier_bits(mods, seq![TokenModifier::Declaration])
}

/// The bitset that marks a constant: read-only, static and declared.
pub open spec fn const_bits(mods: Seq<TokenModifier>) -> u32 {
    modifier_bits(
        mods,
        seq![TokenModifier::Readonly, TokenModifier::Static, TokenModifier::Declaration],
    )
}

/// The bitset that marks documentation.
pub open spec fn doc_bits(mods: Seq<TokenModifier>) -> u32 {
    modifier_bits(mods, seq![TokenModifier::Documentation])
}

// ---------------------------------------------------------------- patterns

/// The marks of a pattern: the names it binds as declared variables, the
/// variants and structs it matches as enum members.
pub open spec fn pattern_marks(p: Pattern, tys: Seq<TokenType>, mods: Seq<TokenModifier>) -> Seq<
    Mark,
>
    decreases p,
{
    match p {
        Pattern::Identifier { span } => one(span, tok(tys, TokenType::Variable), decl_bits(mods)),
        Pattern::EnumVariant { fields, span } => one(span, tok(tys, TokenType::EnumMember), 0)
            + patterns_marks(fields@, tys, mods),
        Pattern::Tuple { elements } => patterns_marks(elements@, tys, mods),
        Pattern::Struct { fields, span } => one(span, tok(tys, TokenType::EnumMember), 0)
            + field_patterns_marks(fields@, tys, mods),
        Pattern::WildCard => Seq::empty(),
        Pattern::Literal => Seq::empty(),
        Pattern::Unit => Seq::empty(),
        Pattern::AsBinding { pattern, span } => one(
            span,
            tok(tys, TokenType::Variable),
            decl_bits(mods),
        ) + pattern_marks(*pattern, tys, mods),
        Pattern::Or { patterns } => patterns_marks(patterns@, tys, mods),
        Pattern::Slice { prefix, rest } => patterns_marks(prefix@, tys, mods) + match rest {
            RestPattern::Bind { span } => one(span, tok(tys, TokenType::Variable), decl_bits(mods)),
            RestPattern::Unbound => Seq::empty(),
        },
    }
}

pub open spec fn patterns_marks(
    ps: Seq<Pattern>,
    tys: Seq<TokenType>,
    mods: Seq<TokenModifier>,
) -> Seq<Mark>
    decreases ps,
{
    if ps.len() == 0 {
        Seq::empty()
    } else {
        patterns_marks(ps.drop_last(), tys, mods) + pattern_marks(ps.last(), tys, mods)
    }
}

pub open spec fn field_patterns_marks(
    fs: Seq<FieldPattern>,
    tys: Seq<TokenType>,
    mods: Seq<TokenModifier>,
) -> Seq<Mark>
    decreases fs,
{
    if fs.len() == 0 {
        Seq::empty()
    } else {
        field_patterns_marks(fs.drop_last(), tys, mods) + pattern_marks(fs.last().value, tys, mods)
    }
}

/// The marks of a parameter's pattern: a name bound directly is a declared
/// parameter; any other pattern is highlighted as patterns are.
pub open spec fn param_marks(p: Pattern, tys: Seq<TokenType>, mods: Seq<TokenModifier>) -> Seq<
    Mark,
> {
    match p {
        Pattern::Identifier { span } => one(span, tok(tys, TokenType::Parameter), decl_bits(mods)),
        _ => pattern_marks(p, tys, mods),
    }
}

/// The marks of the parameters of a function or lambda, in order.
pub open spec fn params_marks(
    bs: Seq<Binding>,
    tys: Seq<TokenType>,
    mods: Seq<TokenModifier>,
) -> Seq<Mark>
    decreases bs,
{
    if bs.len() == 0 {
        Seq::empty()
    } else {
        params_marks(bs.drop_last(), tys, mods) + param_marks(bs.last().pattern, tys, mods)
    }
}

// ------------------------------------------------------------ resolution

/// The token type of a name that refers to `def`: its kind of type, or a
/// function for a value of function type, or a variable for any other value.
pub open spec fn definition_token_type(def: Definition, tys: Seq<TokenType>) -> u32 {
    match def.body {
        DefinitionBody::Struct { .. } => tok(tys, TokenType::Struct),
        DefinitionBody::Enum => tok(tys, TokenType::Enum),
        DefinitionBody::ValueEnum => tok(tys, TokenType::Enum),
        DefinitionBody::Interface => tok(tys, TokenType::Interface),
        DefinitionBody::TypeAlias => tok(tys, TokenType::Type),
        DefinitionBody::Value => match def.ty {
            Type::Function { .. } => tok(tys, TokenType::Function),
            Type::Forall { .. } => tok(tys, TokenType::Function),
            Type::Other => tok(tys, TokenType::Variable),
        },
    }
}

/// `name` followed by a dot and `member`.
pub open spec fn qualify(name: Seq<char>, member: Seq<char>) -> Seq<char> {
    name + seq!['.'] + member
}

/// Some field of `fields` is called `member`.
pub open spec fn has_field(fields: Seq<StructField>, member: Seq<char>) -> bool {
    exists|i: int| 0 <= i < fields.len() && #[trigger] fields[i].name@ == member
}

/// A function type under at most one quantifier, as a method's type stands.
pub open spec fn unquantified(ty: Type) -> Type {
    match ty {
        Type::Forall { body } => *body,
        other => other,
    }
}

/// The type of `member` after a receiver whose type is called
/// `receiver_type`: a property for a field of that struct type; for a value
/// defined as `receiver_type.member`, a method when its first parameter has
/// the receiver's type and a function otherwise; a property in every other
/// case.
pub open spec fn member_token_type(
    receiver_type: Option<String>,
    member: Seq<char>,
    snap: AnalysisSnapshot,
    tys: Seq<TokenType>,
) -> u32 {
    match receiver_type {
        None => tok(tys, TokenType::Property),
        Some(type_id) => {
            let is_field = match snap.definitions.lookup(type_id@) {
                Some(def) => match def.body {
                    DefinitionBody::Struct { fields } => has_field(fields@, member),
                    _ => false,
                },
                None => false,
            };
            if is_field {
                tok(tys, TokenType::Property)
            } else {
                match snap.definitions.lookup(qualify(type_id@, member)) {
                    Some(method_def) => match method_def.body {
                        DefinitionBody::Value => match unquantified(method_def.ty) {
                            Type::Function { param_type_names } => if param_type_names@.len() > 0
                                && (param_type_names@[0] matches Some(n) && n@ == type_id@) {
                                tok(tys, TokenType::Method)
                            } else {
                                tok(tys, TokenType::Function)
                            },
                            _ => tok(tys, TokenType::Function),
                        },
                        _ => tok(tys, TokenType::Property),
                    },
                    None => tok(tys, TokenType::Property),
                }
            }
        },
    }
}

/// The mark of a name bound locally: a parameter or a variable.
pub open spec fn binding_marks(
    span: Span,
    binding_id: Option<u32>,
    snap: AnalysisSnapshot,
    tys: Seq<TokenType>,
) -> Seq<Mark> {
    match binding_id {
        Some(id) => if snap.bindings@.contains_key(id) {
            one(
                span,
                tok(
                    tys,
                    if snap.bindings@[id].is_param {
                        TokenType::Parameter
                    } else {
                        TokenType::Variable
                    },
                ),
                0,
            )
        } else {
            Seq::empty()
        },
        None => Seq::empty(),
    }
}

/// The mark of an identifier: by its qualified name where that names a
/// definition, else by its local binding; an identifier with neither is
/// looked up under the file's module.
pub open spec fn identifier_marks(
    span: Span,
    value: String,
    qualified: Option<String>,
    binding_id: Option<u32>,
    file: File,
    snap: AnalysisSnapshot,
    tys: Seq<TokenType>,
) -> Seq<Mark> {
    match qualified {
        Some(q) => match snap.definitions.lookup(q@) {
            Some(def) => one(span, definition_token_type(def, tys), 0),
            None => binding_marks(span, binding_id, snap, tys),
        },
        None => match binding_id {
            Some(_) => binding_marks(span, binding_id, snap, tys),
            None => match snap.definitions.lookup(qualify(file.module_id@, value@)) {
                Some(def) => one(span, definition_token_type(def, tys), 0),
                None => Seq::empty(),
            },
        },
    }
}

// -------------------------------------------------------------- operators

/// The operator between byte offsets `from` and `to`: the text there with
/// white space trimmed, where any is left.
pub open spec fn trimmed_operator_marks(
    text: Seq<u8>,
    from: int,
    to: int,
    file_id: u32,
    tys: Seq<TokenType>,
) -> Seq<Mark> {
    if from < to {
        let s = text.subrange(from, to);
        let t = trimmed(s);
        if t.len() > 0 {
            one(
                Span {
                    file_id,
                    byte_offset: (from + leading_ws(s)) as u32,
                    byte_length: t.len() as u32,
                    dummy: false,
                },
                tok(tys, TokenType::Operator),
                0,
            )
        } else {
            Seq::empty()
        }
    } else {
        Seq::empty()
    }
}

/// The first `..` between byte offsets `from` and `to`, where there is one.
pub open spec fn range_operator_marks(
    text: Seq<u8>,
    from: int,
    to: int,
    file_id: u32,
    tys: Seq<TokenType>,
) -> Seq<Mark> {
    if from < to {
        match find_dot_dot(text.subrange(from, to)) {
            Some(pos) => one(
                Span { file_id, byte_offset: (from + pos) as u32, byte_length: 2, dummy: false },
                tok(tys, TokenType::Operator),
                0,
            ),
            None => Seq::empty(),
        }
    } else {
        Seq::empty()
    }
}

/// The first `?` between byte offsets `from` and `to`, where there is one.
pub open spec fn propagate_operator_marks(
    text: Seq<u8>,
    from: int,
    to: int,
    file_id: u32,
    tys: Seq<TokenType>,
) -> Seq<Mark> {
    if from < to {
        match first_index_of(text.subrange(from, to), 0x3Fu8) {
            Some(pos) => one(
                Span { file_id, byte_offset: (from + pos) as u32, byte_length: 1, dummy: false },
                tok(tys, TokenType::Operator),
                0,
            ),
            None => Seq::empty(),
        }
    } else {
        Seq::empty()
    }
}

/// The byte offset just past `span`.
pub open spec fn span_end(span: Span) -> int {
    span.byte_offset + span.byte_length
}

/// The byte length of `s` in UTF-8, as `s.len() as u32` gives it.
pub open spec fn byte_len_u32(s: String) -> u32 {
    (encode_utf8(s@).len() as usize) as u32
}

// ------------------------------------------------------------ expressions

/// The marks of an expression, in the order the walk requests them.
#[verifier::opaque]
pub open spec fn expr_marks(
    e: Expression,
    file: File,
    snap: AnalysisSnapshot,
    tys: Seq<TokenType>,
    mods: Seq<TokenModifier>,
) -> Seq<Mark>
    decreases e,
{
    let span = e.span;
    let text = source_bytes(file);
    match e.kind {
        ExpressionKind::Struct { name_span } => one(
            name_span,
            tok(tys, TokenType::Struct),
            decl_bits(mods),
        ),
        ExpressionKind::Enum { name_span } => one(name_span, tok(tys, TokenType::Enum), decl_bits(mods)),
        ExpressionKind::ValueEnum { name_span } => one(
            name_span,
            tok(tys, TokenType::Enum),
            decl_bits(mods),
        ),
        ExpressionKind::Interface { name_span } => one(
            name_span,
            tok(tys, TokenType::Interface),
            decl_bits(mods),
        ),
        ExpressionKind::TypeAlias { name_span } => one(
            name_span,
            tok(tys, TokenType::Type),
            decl_bits(mods),
        ),
        ExpressionKind::Function { name_span, params, body } => one(
            name_span,
            tok(tys, TokenType::Function),
            decl_bits(mods),
        ) + params_marks(params@, tys, mods) + expr_marks(*body, file, snap, tys, mods),
        ExpressionKind::ImplBlock { methods } => methods_marks(methods@, file, snap, tys, mods),
        ExpressionKind::Const { identifier_span } => one(
            identifier_span,
            tok(tys, TokenType::Variable),
            const_bits(mods),
        ),
        ExpressionKind::VariableDeclaration { name_span } => one(
            name_span,
            tok(tys, TokenType::Variable),
            decl_bits(mods),
        ),
        ExpressionKind::Let { binding, value } => pattern_marks(binding.pattern, tys, mods)
            + expr_marks(*value, file, snap, tys, mods),
        ExpressionKind::For { binding, iterable, body } => pattern_marks(binding.pattern, tys, mods)
            + expr_marks(*iterable, file, snap, tys, mods) + expr_marks(*body, file, snap, tys, mods),
        ExpressionKind::Lambda { params, body } => params_marks(params@, tys, mods)
            + expr_marks(*body, file, snap, tys, mods),
        ExpressionKind::Identifier { value, qualified, binding_id } => identifier_marks(
            span,
            value,
            qualified,
            binding_id,
            file,
            snap,
            tys,
        ),
        ExpressionKind::DotAccess { expression, member, receiver_type } => {
            let member_len = byte_len_u32(member);
            expr_marks(*expression, file, snap, tys, mods) + if span.byte_length > member_len {
                one(
                    Span {
                        file_id: span.file_id,
                        byte_offset: (span_end(span) - member_len) as u32,
                        byte_length: member_len,
                        dummy: false,
                    },
                    member_token_type(receiver_type, member@, snap, tys),
                    0,
                )
            } else {
                Seq::empty()
            }
        },
        ExpressionKind::Match { arms } => arms_marks(arms@, file, snap, tys, mods),
        ExpressionKind::IfLet { pattern, scrutinee, consequence, alternative } => pattern_marks(
            pattern,
            tys,
            mods,
        ) + expr_marks(*scrutinee, file, snap, tys, mods) + expr_marks(
            *consequence,
            file,
            snap,
            tys,
            mods,
        ) + expr_marks(*alternative, file, snap, tys, mods),
        ExpressionKind::WhileLet { pattern, scrutinee, body } => pattern_marks(pattern, tys, mods)
            + expr_marks(*scrutinee, file, snap, tys, mods) + expr_marks(*body, file, snap, tys, mods),
        ExpressionKind::StructCall { name_span, variant, field_values } => one(
            name_span,
            tok(tys, if variant { TokenType::EnumMember } else { TokenType::Function }),
            0,
        ) + exprs_marks(field_values@, file, snap, tys, mods),
        ExpressionKind::Binary { left, right } => expr_marks(*left, file, snap, tys, mods)
            + trimmed_operator_marks(
            text,
            span_end(left.span),
            right.span.byte_offset as int,
            span.file_id,
            tys,
        ) + expr_marks(*right, file, snap, tys, mods),
        ExpressionKind::Unary { expression } => trimmed_operator_marks(
            text,
            span.byte_offset as int,
            expression.span.byte_offset as int,
            span.file_id,
            tys,
        ) + expr_marks(*expression, file, snap, tys, mods),
        ExpressionKind::Block { items } => exprs_marks(items@, file, snap, tys, mods),
        ExpressionKind::Tuple { elements } => exprs_marks(elements@, file, snap, tys, mods),
        ExpressionKind::Call { expression, args } => expr_marks(*expression, file, snap, tys, mods)
            + exprs_marks(args@, file, snap, tys, mods),
        ExpressionKind::If { condition, consequence, alternative } => expr_marks(
            *condition,
            file,
            snap,
            tys,
            mods,
        ) + expr_marks(*consequence, file, snap, tys, mods) + expr_marks(
            *alternative,
            file,
            snap,
            tys,
            mods,
        ),
        ExpressionKind::While { condition, body } => expr_marks(*condition, file, snap, tys, mods)
            + expr_marks(*body, file, snap, tys, mods),
        ExpressionKind::Return { expression } => expr_marks(*expression, file, snap, tys, mods),
        ExpressionKind::Defer { expression } => expr_marks(*expression, file, snap, tys, mods),
        ExpressionKind::Select { arms } => select_arms_marks(arms@, file, snap, tys, mods),
        ExpressionKind::Task { expression } => expr_marks(*expression, file, snap, tys, mods),
        ExpressionKind::TryBlock { items } => exprs_marks(items@, file, snap, tys, mods),
        ExpressionKind::RecoverBlock { items } => exprs_marks(items@, file, snap, tys, mods),
        ExpressionKind::Break { value } => match value {
            Some(v) => expr_marks(*v, file, snap, tys, mods),
            None => Seq::empty(),
        },
        ExpressionKind::Continue => Seq::empty(),
        ExpressionKind::ModuleImport { name_span, alias } => one(
            name_span,
            tok(tys, TokenType::Namespace),
            0,
        ) + match alias {
            Some(ImportAlias::Named { span }) => one(
                span,
                tok(tys, TokenType::Namespace),
                decl_bits(mods),
            ),
            Some(ImportAlias::Blank { span }) => one(
                span,
                tok(tys, TokenType::Namespace),
                decl_bits(mods),
            ),
            None => Seq::empty(),
        },
        ExpressionKind::Paren { expression } => expr_marks(*expression, file, snap, tys, mods),
        ExpressionKind::Range { start, end } => {
            let from = match start {
                Some(s) => span_end(s.span),
                None => span.byte_offset as int,
            };
            let to = match end {
                Some(x) => x.span.byte_offset as int,
                None => span_end(span),
            };
            let start_marks = match start {
                Some(s) => expr_marks(*s, file, snap, tys, mods),
                None => Seq::empty(),
            };
            let end_marks = match end {
                Some(x) => expr_marks(*x, file, snap, tys, mods),
                None => Seq::empty(),
            };
            start_marks + range_operator_marks(text, from, to, span.file_id, tys) + end_marks
        },
        ExpressionKind::IndexedAccess { expression, index } => expr_marks(
            *expression,
            file,
            snap,
            tys,
            mods,
        ) + expr_marks(*index, file, snap, tys, mods),
        ExpressionKind::Cast { expression } => expr_marks(*expression, file, snap, tys, mods),
        ExpressionKind::Loop { body } => expr_marks(*body, file, snap, tys, mods),
        ExpressionKind::Propagate { expression } => expr_marks(*expression, file, snap, tys, mods)
            + propagate_operator_marks(
            text,
            span_end(expression.span),
            span_end(span),
            span.file_id,
            tys,
        ),
        ExpressionKind::Reference { expression } => expr_marks(*expression, file, snap, tys, mods),
        ExpressionKind::Assignment { target, value } => expr_marks(*target, file, snap, tys, mods)
            + trimmed_operator_marks(
            text,
            span_end(target.span),
            value.span.byte_offset as int,
            span.file_id,
            tys,
        ) + expr_marks(*value, file, snap, tys, mods),
        ExpressionKind::Literal { literal } => match literal {
            Literal::FormatString(parts) => one(span, tok(tys, TokenType::StringLit), 0)
                + format_parts_marks(parts@, file, snap, tys, mods),
            Literal::Slice(elements) => exprs_marks(elements@, file, snap, tys, mods),
            Literal::Integer => one(span, tok(tys, TokenType::Number), 0),
            Literal::Float => one(span, tok(tys, TokenType::Number), 0),
            Literal::Imaginary => one(span, tok(tys, TokenType::Number), 0),
            Literal::Str => one(span, tok(tys, TokenType::StringLit), 0),
            Literal::Char => one(span, tok(tys, TokenType::StringLit), 0),
            Literal::Boolean => one(span, tok(tys, TokenType::Keyword), 0),
        },
        ExpressionKind::Unit => Seq::empty(),
        ExpressionKind::RawGo => Seq::empty(),
        ExpressionKind::NoOp => Seq::empty(),
    }
}

pub open spec fn exprs_marks(
    es: Seq<Expression>,
    file: File,
    snap: AnalysisSnapshot,
    tys: Seq<TokenType>,
    mods: Seq<TokenModifier>,
) -> Seq<Mark>
    decreases es,
{
    if es.len() == 0 {
        Seq::empty()
    } else {
        exprs_marks(es.drop_last(), file, snap, tys, mods) + expr_marks(
            es.last(),
            file,
            snap,
            tys,
            mods,
        )
    }
}

/// The marks of the methods of an impl block, in order: a function there is a
/// declared method; anything else is highlighted as it is elsewhere.
pub open spec fn methods_marks(
    ms: Seq<Expression>,
    file: File,
    snap: AnalysisSnapshot,
    tys: Seq<TokenType>,
    mods: Seq<TokenModifier>,
) -> Seq<Mark>
    decreases ms,
{
    if ms.len() == 0 {
        Seq::empty()
    } else {
        methods_marks(ms.drop_last(), file, snap, tys, mods) + match ms.last().kind {
            ExpressionKind::Function { name_span, params, body } => one(
                name_span,
                tok(tys, TokenType::Method),
                decl_bits(mods),
            ) + params_marks(params@, tys, mods) + expr_marks(*body, file, snap, tys, mods),
            _ => expr_marks(ms.last(), file, snap, tys, mods),
        }
    }
}

/// The marks of one match arm: its pattern, guard and body.
pub open spec fn arm_marks(
    arm: MatchArm,
    file: File,
    snap: AnalysisSnapshot,
    tys: Seq<TokenType>,
    mods: Seq<TokenModifier>,
) -> Seq<Mark>
    decreases arm,
{
    pattern_marks(arm.pattern, tys, mods) + match arm.guard {
        Some(g) => expr_marks(*g, file, snap, tys, mods),
        None => Seq::empty(),
    } + expr_marks(*arm.expression, file, snap, tys, mods)
}

pub open spec fn arms_marks(
    arms: Seq<MatchArm>,
    file: File,
    snap: AnalysisSnapshot,
    tys: Seq<TokenType>,
    mods: Seq<TokenModifier>,
) -> Seq<Mark>
    decreases arms,
{
    if arms.len() == 0 {
        Seq::empty()
    } else {
        arms_marks(arms.drop_last(), file, snap, tys, mods) + arm_marks(
            arms.last(),
            file,
            snap,
            tys,
            mods,
        )
    }
}

/// The bodies of the arms of a receiving match in a select.
pub open spec fn receive_arms_marks(
    arms: Seq<MatchArm>,
    file: File,
    snap: AnalysisSnapshot,
    tys: Seq<TokenType>,
    mods: Seq<TokenModifier>,
) -> Seq<Mark>
    decreases arms,
{
    if arms.len() == 0 {
        Seq::empty()
    } else {
        receive_arms_marks(arms.drop_last(), file, snap, tys, mods) + expr_marks(
            *arms.last().expression,
            file,
            snap,
            tys,
            mods,
        )
    }
}

pub open spec fn select_arm_marks(
    arm: SelectArm,
    file: File,
    snap: AnalysisSnapshot,
    tys: Seq<TokenType>,
    mods: Seq<TokenModifier>,
) -> Seq<Mark>
    decreases arm,
{
    match arm.pattern {
        SelectArmPattern::Receive { body } => expr_marks(*body, file, snap, tys, mods),
        SelectArmPattern::Send { body } => expr_marks(*body, file, snap, tys, mods),
        SelectArmPattern::MatchReceive { arms } => receive_arms_marks(arms@, file, snap, tys, mods),
        SelectArmPattern::WildCard { body } => expr_marks(*body, file, snap, tys, mods),
    }
}

pub open spec fn select_arms_marks(
    arms: Seq<SelectArm>,
    file: File,
    snap: AnalysisSnapshot,
    tys: Seq<TokenType>,
    mods: Seq<TokenModifier>,
) -> Seq<Mark>
    decreases arms,
{
    if arms.len() == 0 {
        Seq::empty()
    } else {
        select_arms_marks(arms.drop_last(), file, snap, tys, mods) + select_arm_marks(
            arms.last(),
            file,
            snap,
            tys,
            mods,
        )
    }
}

/// The expressions interpolated into a format string.
pub open spec fn format_parts_marks(
    parts: Seq<FormatStringPart>,
    file: File,
    snap: AnalysisSnapshot,
    tys: Seq<TokenType>,
    mods: Seq<TokenModifier>,
) -> Seq<Mark>
    decreases parts,
{
    if parts.len() == 0 {
        Seq::empty()
    } else {
        format_parts_marks(parts.drop_last(), file, snap, tys, mods) + match parts.last() {
            FormatStringPart::Expression(x) => expr_marks(*x, file, snap, tys, mods),
            FormatStringPart::Text => Seq::empty(),
        }
    }
}

} // verus!

verus! {

// ------------------------------------------------------ where the walk runs

/// The walk over `e` computes no offset beyond 32 bits and cuts the source
/// only at char boundaries inside it: the inputs on which it does not
/// panic.
#[verifier::opaque]
pub open spec fn expr_ok(e: Expression, text: Seq<u8>) -> bool
    decreases e,
{
    let span = e.span;
    match e.kind {
        ExpressionKind::Function { body, .. } => expr_ok(*body, text),
        ExpressionKind::ImplBlock { methods } => exprs_ok(methods@, text),
        ExpressionKind::Let { value, .. } => expr_ok(*value, text),
        ExpressionKind::For { iterable, body, .. } => expr_ok(*iterable, text) && expr_ok(*body, text),
        ExpressionKind::Lambda { body, .. } => expr_ok(*body, text),
        ExpressionKind::DotAccess { expression, member, .. } => expr_ok(*expression, text) && (
        span.byte_length > byte_len_u32(member) ==> span_end(span) <= u32::MAX),
        ExpressionKind::Match { arms } => arms_ok(arms@, text),
        ExpressionKind::IfLet { scrutinee, consequence, alternative, .. } => expr_ok(*scrutinee, text)
            && expr_ok(*consequence, text) && expr_ok(*alternative, text),
        ExpressionKind::WhileLet { scrutinee, body, .. } => expr_ok(*scrutinee, text) && expr_ok(
            *body,
            text,
        ),
        ExpressionKind::StructCall { field_values, .. } => exprs_ok(field_values@, text),
        ExpressionKind::Binary { left, right } => {
            &&& expr_ok(*left, text)
            &&& expr_ok(*right, text)
            &&& span_end(left.span) <= u32::MAX
            &&& span_end(left.span) < right.span.byte_offset ==> slice_ok(
                text,
                span_end(left.span),
                right.span.byte_offset as int,
            )
        },
        ExpressionKind::Unary { expression } => {
            &&& expr_ok(*expression, text)
            &&& span.byte_offset < expression.span.byte_offset ==> slice_ok(
                text,
                span.byte_offset as int,
                expression.span.byte_offset as int,
            )
        },
        ExpressionKind::Block { items } => exprs_ok(items@, text),
        ExpressionKind::Tuple { elements } => exprs_ok(elements@, text),
        ExpressionKind::Call { expression, args } => expr_ok(*expression, text) && exprs_ok(
            args@,
            text,
        ),
        ExpressionKind::If { condition, consequence, alternative } => expr_ok(*condition, text)
            && expr_ok(*consequence, text) && expr_ok(*alternative, text),
        ExpressionKind::While { condition, body } => expr_ok(*condition, text) && expr_ok(
            *body,
            text,
        ),
        ExpressionKind::Return { expression } => expr_ok(*expression, text),
        ExpressionKind::Defer { expression } => expr_ok(*expression, text),
        ExpressionKind::Select { arms } => select_arms_ok(arms@, text),
        ExpressionKind::Task { expression } => expr_ok(*expression, text),
        ExpressionKind::TryBlock { items } => exprs_ok(items@, text),
        ExpressionKind::RecoverBlock { items } => exprs_ok(items@, text),
        ExpressionKind::Break { value } => match value {
            Some(v) => expr_ok(*v, text),
            None => true,
        },
        ExpressionKind::Paren { expression } => expr_ok(*expression, text),
        ExpressionKind::Range { start, end } => {
            let from = match start {
                Some(s) => span_end(s.span),
                None => span.byte_offset as int,
            };
            let to = match end {
                Some(x) => x.span.byte_offset as int,
                None => span_end(span),
            };
            &&& span_end(span) <= u32::MAX
            &&& match start {
                Some(s) => expr_ok(*s, text) && span_end(s.span) <= u32::MAX,
                None => true,
            }
            &&& match end {
                Some(x) => expr_ok(*x, text),
                None => true,
            }
            &&& from < to ==> slice_ok(text, from, to)
        },
        ExpressionKind::IndexedAccess { expression, index } => expr_ok(*expression, text) && expr_ok(
            *index,
            text,
        ),
        ExpressionKind::Cast { expression } => expr_ok(*expression, text),
        ExpressionKind::Loop { body } => expr_ok(*body, text),
        ExpressionKind::Propagate { expression } => {
            &&& expr_ok(*expression, text)
            &&& span_end(expression.span) <= u32::MAX
            &&& span_end(span) <= u32::MAX
            &&& span_end(expression.span) < span_end(span) ==> slice_ok(
                text,
                span_end(expression.span),
                span_end(span),
            )
        },
        ExpressionKind::Reference { expression } => expr_ok(*expression, text),
        ExpressionKind::Assignment { target, value } => {
            &&& expr_ok(*target, text)
            &&& expr_ok(*value, text)
            &&& span_end(target.span) <= u32::MAX
            &&& span_end(target.span) < value.span.byte_offset ==> slice_ok(
                text,
                span_end(target.span),
                value.span.byte_offset as int,
            )
        },
        ExpressionKind::Literal { literal } => match literal {
            Literal::FormatString(parts) => format_parts_ok(parts@, text),
            Literal::Slice(elements) => exprs_ok(elements@, text),
            _ => true,
        },
        _ => true,
    }
}

pub open spec fn exprs_ok(es: Seq<Expression>, text: Seq<u8>) -> bool
    decreases es,
{
    if es.len() == 0 {
        true
    } else {
        exprs_ok(es.drop_last(), text) && expr_ok(es.last(), text)
    }
}

pub open spec fn arms_ok(arms: Seq<MatchArm>, text: Seq<u8>) -> bool
    decreases arms,
{
    if arms.len() == 0 {
        true
    } else {
        let a = arms.last();
        &&& arms_ok(arms.drop_last(), text)
        &&& match a.guard {
            Some(g) => expr_ok(*g, text),
            None => true,
        }
        &&& expr_ok(*a.expression, text)
    }
}

pub open spec fn receive_arms_ok(arms: Seq<MatchArm>, text: Seq<u8>) -> bool
    decreases arms,
{
    if arms.len() == 0 {
        true
    } else {
        receive_arms_ok(arms.drop_last(), text) && expr_ok(*arms.last().expression, text)
    }
}

pub open spec fn select_arms_ok(arms: Seq<SelectArm>, text: Seq<u8>) -> bool
    decreases arms,
{
    if arms.len() == 0 {
        true
    } else {
        &&& select_arms_ok(arms.drop_last(), text)
        &&& match arms.last().pattern {
            SelectArmPattern::Receive { body } => expr_ok(*body, text),
            SelectArmPattern::Send { body } => expr_ok(*body, text),
            SelectArmPattern::MatchReceive { arms } => receive_arms_ok(arms@, text),
            SelectArmPattern::WildCard { body } => expr_ok(*body, text),
        }
    }
}

pub open spec fn format_parts_ok(parts: Seq<FormatStringPart>, text: Seq<u8>) -> bool
    decreases parts,
{
    if parts.len() == 0 {
        true
    } else {
        format_parts_ok(parts.drop_last(), text) && match parts.last() {
            FormatStringPart::Expression(x) => expr_ok(*x, text),
            FormatStringPart::Text => true,
        }
    }
}

} // verus!

verus! {

// ------------------------------------------------------------------ walk

/// The bitsets that the walk sets, a declaration and a constant, have every
/// bit within 32 bits.
pub open spec fn walk_modifiers_fit(mods: Seq<TokenModifier>) -> bool {
    &&& modifiers_fit(mods, seq![TokenModifier::Declaration])
    &&& modifiers_fit(
        mods,
        seq![TokenModifier::Readonly, TokenModifier::Static, TokenModifier::Declaration],
    )
}

/// The declaration bitset over the modifier legend.
fn declaration_bits(modifier_map: &TokenModifierMap) -> (r: u32)
    requires
        modifiers_fit(modifier_map.legend(), seq![TokenModifier::Declaration]),
    ensures
        r == decl_bits(modifier_map.legend()),
{
    let mods = [TokenModifier::Declaration];
    proof {
        assert(mods@ =~= seq![TokenModifier::Declaration]);
    }
    modifier_map.encode(&mods)
}

/// The constant bitset over the modifier legend.
fn constant_bits(modifier_map: &TokenModifierMap) -> (r: u32)
    requires
        walk_modifiers_fit(modifier_map.legend()),
    ensures
        r == const_bits(modifier_map.legend()),
{
    let mods = [TokenModifier::Readonly, TokenModifier::Static, TokenModifier::Declaration];
    proof {
        assert(mods@ =~= seq![
            TokenModifier::Readonly,
            TokenModifier::Static,
            TokenModifier::Declaration,
        ]);
    }
    modifier_map.encode(&mods)
}

/// The documentation bitset over the modifier legend.
fn documentation_bits(modifier_map: &TokenModifierMap) -> (r: u32)
    requires
        modifiers_fit(modifier_map.legend(), seq![TokenModifier::Documentation]),
    ensures
        r == doc_bits(modifier_map.legend()),
{
    let mods = [TokenModifier::Documentation];
    proof {
        assert(mods@ =~= seq![TokenModifier::Documentation]);
    }
    modifier_map.encode(&mods)
}

/// Highlights the names that a pattern binds as declared variables, and the
/// variants and structs it matches as enum members.
pub fn emit_pattern_tokens(
    pattern: &Pattern,
    line_index: &LineIndex,
    type_map: &TokenTypeMap,
    modifier_map: &TokenModifierMap,
    builder: &mut SemanticTokensBuilder,
)
    requires
        modifiers_fit(modifier_map.legend(), seq![TokenModifier::Declaration]),
    ensures
        final(builder)@ == old(builder)@ + mark_tokens(
            line_index.text(),
            pattern_marks(*pattern, type_map.legend(), modifier_map.legend()),
        ),
    decreases pattern,
{
    let ghost tys = type_map.legend();
    let ghost mods = modifier_map.legend();
    let ghost text = line_index.text();
    match pattern {
        Pattern::Identifier { span } => {
            let t = type_map.get(TokenType::Variable);
            let m = declaration_bits(modifier_map);
            builder.push(line_index, span, t, m);
        },
        Pattern::EnumVariant { fields, span } => {
            let t = type_map.get(TokenType::EnumMember);
            builder.push(line_index, span, t, 0);
            emit_patterns(fields, line_index, type_map, modifier_map, builder);
            proof {
                lemma_mark_tokens_concat(text, one(*span, t, 0), patterns_marks(fields@, tys, mods));
            }
        },
        Pattern::Tuple { elements } => {
            emit_patterns(elements, line_index, type_map, modifier_map, builder);
        },
        Pattern::Struct { fields, span } => {
            let t = type_map.get(TokenType::EnumMember);
            builder.push(line_index, span, t, 0);
            emit_field_patterns(fields, line_index, type_map, modifier_map, builder);
            proof {
                lemma_mark_tokens_concat(text, one(*span, t, 0), field_patterns_marks(fields@, tys, mods));
            }
        },
        Pattern::WildCard | Pattern::Literal | Pattern::Unit => {
            proof {
                lemma_mark_tokens_empty(text);
            }
            assert(builder@ + Seq::empty() =~= builder@);
        },
        Pattern::AsBinding { pattern: inner, span } => {
            let t = type_map.get(TokenType::Variable);
            let m = declaration_bits(modifier_map);
            builder.push(line_index, span, t, m);
            emit_pattern_tokens(inner, line_index, type_map, modifier_map, builder);
            proof {
                lemma_mark_tokens_concat(text, one(*span, t, m), pattern_marks(**inner, tys, mods));
            }
        },
        Pattern::Or { patterns } => {
            emit_patterns(patterns, line_index, type_map, modifier_map, builder);
        },
        Pattern::Slice { prefix, rest } => {
            emit_patterns(prefix, line_index, type_map, modifier_map, builder);
            match rest {
                RestPattern::Bind { span } => {
                    let t = type_map.get(TokenType::Variable);
                    let m = declaration_bits(modifier_map);
                    builder.push(line_index, span, t, m);
                    proof {
                        lemma_mark_tokens_concat(text, patterns_marks(prefix@, tys, mods), one(*span, t, m));
                    }
                },
                RestPattern::Unbound => {
                    assert(patterns_marks(prefix@, tys, mods) + Seq::<Mark>::empty() =~= patterns_marks(prefix@, tys, mods));
                },
            }
        },
    }
}

/// Highlights each pattern of `patterns`, in order.
fn emit_patterns(
    patterns: &Vec<Pattern>,
    line_index: &LineIndex,
    type_map: &TokenTypeMap,
    modifier_map: &TokenModifierMap,
    builder: &mut SemanticTokensBuilder,
)
    requires
        modifiers_fit(modifier_map.legend(), seq![TokenModifier::Declaration]),
    ensures
        final(builder)@ == old(builder)@ + mark_tokens(
            line_index.text(),
            patterns_marks(patterns@, type_map.legend(), modifier_map.legend()),
        ),
    decreases patterns@,
{
    let ghost tys = type_map.legend();
    let ghost mods = modifier_map.legend();
    let ghost text = line_index.text();
    let ghost start = builder@;
    proof {
        lemma_mark_tokens_empty(line_index.text());
    }
    let mut i: usize = 0;
    while i < patterns.len()
        invariant
            i <= patterns@.len(),
            modifiers_fit(modifier_map.legend(), seq![TokenModifier::Declaration]),
            builder@ == start + mark_tokens(text, patterns_marks(patterns@.take(i as int), tys, mods)),
            tys == type_map.legend(),
            mods == modifier_map.legend(),
            text == line_index.text(),
        decreases patterns@.len() - i,
    {
        proof {
            assert(decreases_to!(patterns@ => patterns@[i as int]));
            assert(patterns@.take(i + 1).drop_last() =~= patterns@.take(i as int));
            assert(patterns@.take(i + 1).last() == patterns@[i as int]);
        }
        emit_pattern_tokens(&patterns[i], line_index, type_map, modifier_map, builder);
        proof {
            lemma_mark_tokens_concat(text, patterns_marks(patterns@.take(i as int), tys, mods), pattern_marks(patterns@[i as int], tys, mods));
        }
        i = i + 1;
    }
    assert(patterns@.take(i as int) =~= patterns@);
}

/// Highlights the value pattern of each field pattern, in order.
fn emit_field_patterns(
    fields: &Vec<FieldPattern>,
    line_index: &LineIndex,
    type_map: &TokenTypeMap,
    modifier_map: &TokenModifierMap,
    builder: &mut SemanticTokensBuilder,
)
    requires
        modifiers_fit(modifier_map.legend(), seq![TokenModifier::Declaration]),
    ensures
        final(builder)@ == old(builder)@ + mark_tokens(
            line_index.text(),
            field_patterns_marks(fields@, type_map.legend(), modifier_map.legend()),
        ),
    decreases fields@,
{
    let ghost tys = type_map.legend();
    let ghost mods = modifier_map.legend();
    let ghost text = line_index.text();
    let ghost start = builder@;
    proof {
        lemma_mark_tokens_empty(line_index.text());
    }
    let mut i: usize = 0;
    while i < fields.len()
        invariant
            i <= fields@.len(),
            modifiers_fit(modifier_map.legend(), seq![TokenModifier::Declaration]),
            builder@ == start + mark_tokens(text, field_patterns_marks(fields@.take(i as int), tys, mods)),
            tys == type_map.legend(),
            mods == modifier_map.legend(),
            text == line_index.text(),
        decreases fields@.len() - i,
    {
        proof {
            assert(decreases_to!(fields@ => fields@[i as int]));
            assert(decreases_to!(fields@[i as int] => fields@[i as int].value));
            assert(fields@.take(i + 1).drop_last() =~= fields@.take(i as int));
            assert(fields@.take(i + 1).last() == fields@[i as int]);
        }
        emit_pattern_tokens(&fields[i].value, line_index, type_map, modifier_map, builder);
        proof {
            lemma_mark_tokens_concat(text, field_patterns_marks(fields@.take(i as int), tys, mods), pattern_marks(fields@[i as int].value, tys, mods));
        }
        i = i + 1;
    }
    assert(fields@.take(i as int) =~= fields@);
}

/// Highlights a parameter's pattern.
fn emit_param_tokens(
    pattern: &Pattern,
    line_index: &LineIndex,
    type_map: &TokenTypeMap,
    modifier_map: &TokenModifierMap,
    builder: &mut SemanticTokensBuilder,
)
    requires
        modifiers_fit(modifier_map.legend(), seq![TokenModifier::Declaration]),
    ensures
        final(builder)@ == old(builder)@ + mark_tokens(
            line_index.text(),
            param_marks(*pattern, type_map.legend(), modifier_map.legend()),
        ),
{
    match pattern {
        Pattern::Identifier { span } => {
            let t = type_map.get(TokenType::Parameter);
            let m = declaration_bits(modifier_map);
            builder.push(line_index, span, t, m);
        },
        _ => {
            emit_pattern_tokens(pattern, line_index, type_map, modifier_map, builder);
        },
    }
}

/// Highlights the parameters, in order.
fn emit_params(
    bindings: &Vec<Binding>,
    line_index: &LineIndex,
    type_map: &TokenTypeMap,
    modifier_map: &TokenModifierMap,
    builder: &mut SemanticTokensBuilder,
)
    requires
        modifiers_fit(modifier_map.legend(), seq![TokenModifier::Declaration]),
    ensures
        final(builder)@ == old(builder)@ + mark_tokens(
            line_index.text(),
            params_marks(bindings@, type_map.legend(), modifier_map.legend()),
        ),
{
    let ghost tys = type_map.legend();
    let ghost mods = modifier_map.legend();
    let ghost text = line_index.text();
    let ghost start = builder@;
    proof {
        lemma_mark_tokens_empty(line_index.text());
    }
    let mut i: usize = 0;
    while i < bindings.len()
        invariant
            i <= bindings@.len(),
            modifiers_fit(modifier_map.legend(), seq![TokenModifier::Declaration]),
            builder@ == start + mark_tokens(text, params_marks(bindings@.take(i as int), tys, mods)),
            tys == type_map.legend(),
            mods == modifier_map.legend(),
            text == line_index.text(),
        decreases bindings@.len() - i,
    {
        proof {
            assert(bindings@.take(i + 1).drop_last() =~= bindings@.take(i as int));
            assert(bindings@.take(i + 1).last() == bindings@[i as int]);
        }
        emit_param_tokens(&bindings[i].pattern, line_index, type_map, modifier_map, builder);
        proof {
            lemma_mark_tokens_concat(text, params_marks(bindings@.take(i as int), tys, mods), param_marks(bindings@[i as int].pattern, tys, mods));
        }
        i = i + 1;
    }
    assert(bindings@.take(i as int) =~= bindings@);
}

} // verus!

verus! {

/// `prefix`, a dot, and `name`.
fn qualified_name(prefix: &String, name: &String) -> (r: String)
    ensures
        r@ == qualify(prefix@, name@),
{
    let mut r = prefix.clone();
    r.append(".");
    r.append(name.as_str());
    proof {
        reveal_strlit(".");
    }
    r
}

/// The token type of a name that refers to `def`.
pub fn definition_to_token_type(def: &Definition, type_map: &TokenTypeMap) -> (r: u32)
    ensures
        r == definition_token_type(*def, type_map.legend()),
{
    match &def.body {
        DefinitionBody::Struct { .. } => type_map.get(TokenType::Struct),
        DefinitionBody::Enum | DefinitionBody::ValueEnum => type_map.get(TokenType::Enum),
        DefinitionBody::Interface => type_map.get(TokenType::Interface),
        DefinitionBody::TypeAlias => type_map.get(TokenType::Type),
        DefinitionBody::Value => {
            match &def.ty {
                Type::Function { .. } | Type::Forall { .. } => type_map.get(TokenType::Function),
                Type::Other => type_map.get(TokenType::Variable),
            }
        },
    }
}

/// Some field of `fields` is called `member`.
fn has_field_named(fields: &Vec<StructField>, member: &String) -> (r: bool)
    ensures
        r == has_field(fields@, member@),
{
    let mut i: usize = 0;
    while i < fields.len()
        invariant
            i <= fields@.len(),
            forall|j: int| 0 <= j < i ==> #[trigger] fields@[j].name@ != member@,
        decreases fields@.len() - i,
    {
        if fields[i].name == *member {
            assert(fields@[i as int].name@ == member@);
            return true;
        }
        i = i + 1;
    }
    false
}

/// The token type of `member` after a receiver whose type is called
/// `receiver_type`: a property for a field, a method or function for a value
/// defined on the type, a property otherwise.
pub fn resolve_dot_access_member(
    receiver_type: &Option<String>,
    member: &String,
    snapshot: &AnalysisSnapshot,
    type_map: &TokenTypeMap,
) -> (r: u32)
    ensures
        r == member_token_type(*receiver_type, member@, *snapshot, type_map.legend()),
{
    let type_id = match receiver_type {
        Some(t) => t,
        None => {
            return type_map.get(TokenType::Property);
        },
    };
    let mut is_field = false;
    if let Some(def) = snapshot.definitions.get(type_id) {
        if let DefinitionBody::Struct { fields } = &def.body {
            is_field = has_field_named(fields, member);
        }
    }
    if is_field {
        return type_map.get(TokenType::Property);
    }
    let method_name = qualified_name(type_id, member);
    if let Some(method_def) = snapshot.definitions.get(&method_name) {
        if let DefinitionBody::Value = &method_def.body {
            let func_ty = match &method_def.ty {
                Type::Forall { body } => &**body,
                other => other,
            };
            if let Type::Function { param_type_names } = func_ty {
                if param_type_names.len() > 0 {
                    if let Some(first) = &param_type_names[0] {
                        if *first == *type_id {
                            return type_map.get(TokenType::Method);
                        }
                    }
                }
            }
            return type_map.get(TokenType::Function);
        }
    }
    type_map.get(TokenType::Property)
}

/// Highlights the operator between byte offsets `op_start` and `op_end`:
/// the source there with white space trimmed, where any is left.
fn push_trimmed_operator(
    text: &[u8],
    op_start: u32,
    op_end: u32,
    file_id: u32,
    line_index: &LineIndex,
    type_map: &TokenTypeMap,
    builder: &mut SemanticTokensBuilder,
)
    requires
        op_start < op_end ==> slice_ok(text@, op_start as int, op_end as int),
    ensures
        final(builder)@ == old(builder)@ + mark_tokens(
            line_index.text(),
            trimmed_operator_marks(text@, op_start as int, op_end as int, file_id, type_map.legend()),
        ),
{
    if op_start < op_end {
        let from = op_start as usize;
        let to = op_end as usize;
        let ghost s = text@.subrange(from as int, to as int);
        let leading = leading_ws_len(text, from, to);
        proof {
            lemma_leading_ws_bound(s);
            assert(s.skip(leading as int) =~= text@.subrange(from + leading, to as int));
            lemma_trailing_ws_bound(s.skip(leading as int));
        }
        let trailing = trailing_ws_len(text, from + leading, to);
        let trimmed_len = (to - from) - leading - trailing;
        assert(trimmed(s).len() == trimmed_len);
        if trimmed_len > 0 {
            let span = Span::new(file_id, op_start + leading as u32, trimmed_len as u32);
            let t = type_map.get(TokenType::Operator);
            builder.push(line_index, &span, t, 0);
            return;
        }
    }
    proof {
        lemma_mark_tokens_empty(line_index.text());
    }
    assert(builder@ + Seq::empty() =~= builder@);
}

/// Highlights the first `..` between byte offsets `from` and `to`.
fn push_range_operator(
    text: &[u8],
    from: u32,
    to: u32,
    file_id: u32,
    line_index: &LineIndex,
    type_map: &TokenTypeMap,
    builder: &mut SemanticTokensBuilder,
)
    requires
        from < to ==> slice_ok(text@, from as int, to as int),
    ensures
        final(builder)@ == old(builder)@ + mark_tokens(
            line_index.text(),
            range_operator_marks(text@, from as int, to as int, file_id, type_map.legend()),
        ),
{
    if from < to {
        proof {
            lemma_find_dot_dot(text@.subrange(from as int, to as int));
        }
        if let Some(pos) = find_dot_dot_in(text, from as usize, to as usize) {
            let span = Span::new(file_id, from + pos as u32, 2);
            let t = type_map.get(TokenType::Operator);
            builder.push(line_index, &span, t, 0);
            return;
        }
    }
    proof {
        lemma_mark_tokens_empty(line_index.text());
    }
    assert(builder@ + Seq::empty() =~= builder@);
}

/// Highlights the first `?` between byte offsets `from` and `to`.
fn push_propagate_operator(
    text: &[u8],
    from: u32,
    to: u32,
    file_id: u32,
    line_index: &LineIndex,
    type_map: &TokenTypeMap,
    builder: &mut SemanticTokensBuilder,
)
    requires
        from < to ==> slice_ok(text@, from as int, to as int),
    ensures
        final(builder)@ == old(builder)@ + mark_tokens(
            line_index.text(),
            propagate_operator_marks(text@, from as int, to as int, file_id, type_map.legend()),
        ),
{
    if from < to {
        proof {
            lemma_first_index_of(text@.subrange(from as int, to as int), 0x3Fu8);
        }
        if let Some(pos) = find_byte_in(text, from as usize, to as usize, 0x3Fu8) {
            let span = Span::new(file_id, from + pos as u32, 1);
            let t = type_map.get(TokenType::Operator);
            builder.push(line_index, &span, t, 0);
            return;
        }
    }
    proof {
        lemma_mark_tokens_empty(line_index.text());
    }
    assert(builder@ + Seq::empty() =~= builder@);
}

} // verus!

verus! {

/// Highlights an identifier at `span` by what it resolves to.
fn emit_identifier(
    span: &Span,
    value: &String,
    qualified: &Option<String>,
    binding_id: &Option<u32>,
    file: &File,
    snapshot: &AnalysisSnapshot,
    line_index: &LineIndex,
    type_map: &TokenTypeMap,
    builder: &mut SemanticTokensBuilder,
)
    ensures
        final(builder)@ == old(builder)@ + mark_tokens(
            line_index.text(),
            identifier_marks(
                *span,
                *value,
                *qualified,
                *binding_id,
                *file,
                *snapshot,
                type_map.legend(),
            ),
        ),
{
    let ghost text = line_index.text();
    let ghost before = builder@;
    proof {
        lemma_mark_tokens_empty(text);
        assert(before + Seq::empty() =~= before);
    }
    if let Some(qname) = qualified {
        if let Some(def) = snapshot.definitions.get(qname) {
            let token_type = definition_to_token_type(def, type_map);
            builder.push(line_index, span, token_type, 0);
        } else {
            emit_binding(span, binding_id, snapshot, line_index, type_map, builder);
        }
    } else if binding_id.is_some() {
        emit_binding(span, binding_id, snapshot, line_index, type_map, builder);
    } else {
        let name = qualified_name(&file.module_id, value);
        if let Some(def) = snapshot.definitions.get(&name) {
            let token_type = definition_to_token_type(def, type_map);
            builder.push(line_index, span, token_type, 0);
        }
    }
}

/// Highlights a locally bound name as a parameter or a variable.
fn emit_binding(
    span: &Span,
    binding_id: &Option<u32>,
    snapshot: &AnalysisSnapshot,
    line_index: &LineIndex,
    type_map: &TokenTypeMap,
    builder: &mut SemanticTokensBuilder,
)
    ensures
        final(builder)@ == old(builder)@ + mark_tokens(
            line_index.text(),
            binding_marks(*span, *binding_id, *snapshot, type_map.legend()),
        ),
{
    broadcast use vstd::std_specs::hash::group_hash_axioms;

    let ghost text = line_index.text();
    let ghost before = builder@;
    proof {
        lemma_mark_tokens_empty(text);
        assert(before + Seq::empty() =~= before);
    }
    if let Some(id) = binding_id {
        if let Some(binding) = snapshot.bindings.get(id) {
            let ty = if binding.is_param {
                TokenType::Parameter
            } else {
                TokenType::Variable
            };
            let t = type_map.get(ty);
            builder.push(line_index, span, t, 0);
        }
    }
}

} // verus!

verus! {

/// Highlights the spans of an expression: declarations by their kind, names
/// by what they resolve to, literals and operators, and everything nested in
/// it, in the order in which the walk reaches them.
pub fn emit_tokens(
    expr: &Expression,
    file: &File,
    snapshot: &AnalysisSnapshot,
    line_index: &LineIndex,
    type_map: &TokenTypeMap,
    modifier_map: &TokenModifierMap,
    builder: &mut SemanticTokensBuilder,
)
    requires
        walk_modifiers_fit(modifier_map.legend()),
        expr_ok(*expr, source_bytes(*file)),
    ensures
        final(builder)@ == old(builder)@ + mark_tokens(
            line_index.text(),
            expr_marks(*expr, *file, *snapshot, type_map.legend(), modifier_map.legend()),
        ),
    decreases expr, 1int,
{
    match &expr.kind {
        ExpressionKind::Struct { .. }
        | ExpressionKind::Enum { .. }
        | ExpressionKind::ValueEnum { .. }
        | ExpressionKind::Interface { .. }
        | ExpressionKind::TypeAlias { .. }
        | ExpressionKind::Function { .. }
        | ExpressionKind::ImplBlock { .. }
        | ExpressionKind::Const { .. }
        | ExpressionKind::VariableDeclaration { .. }
        | ExpressionKind::ModuleImport { .. } => {
            emit_declaration_tokens(expr, file, snapshot, line_index, type_map, modifier_map, builder);
        },
        ExpressionKind::Let { .. }
        | ExpressionKind::For { .. }
        | ExpressionKind::Lambda { .. }
        | ExpressionKind::Match { .. }
        | ExpressionKind::IfLet { .. }
        | ExpressionKind::WhileLet { .. } => {
            emit_binding_form_tokens(expr, file, snapshot, line_index, type_map, modifier_map, builder);
        },
        ExpressionKind::DotAccess { .. }
        | ExpressionKind::Binary { .. }
        | ExpressionKind::Unary { .. }
        | ExpressionKind::Range { .. }
        | ExpressionKind::Propagate { .. }
        | ExpressionKind::Assignment { .. } => {
            emit_operator_tokens(expr, file, snapshot, line_index, type_map, modifier_map, builder);
        },
        ExpressionKind::Identifier { .. } | ExpressionKind::Literal { .. } => {
            emit_leaf_tokens(expr, file, snapshot, line_index, type_map, modifier_map, builder);
        },
        ExpressionKind::Continue
        | ExpressionKind::Unit
        | ExpressionKind::RawGo
        | ExpressionKind::NoOp => {
            proof {
                lemma_mark_tokens_empty(line_index.text());
                assert(builder@ + Seq::<AbsoluteToken>::empty() =~= builder@);
                assert(expr_marks(
                    *expr,
                    *file,
                    *snapshot,
                    type_map.legend(),
                    modifier_map.legend(),
                ) == Seq::<Mark>::empty()) by {
                    reveal(expr_marks);
                }
            }
        },
        _ => {
            emit_nested_tokens(expr, file, snapshot, line_index, type_map, modifier_map, builder);
        },
    }
}

/// The declarations: a name declared with its kind, the parameters of a
/// function, the methods of an impl block, an import's alias.
fn emit_declaration_tokens(
    expr: &Expression,
    file: &File,
    snapshot: &AnalysisSnapshot,
    line_index: &LineIndex,
    type_map: &TokenTypeMap,
    modifier_map: &TokenModifierMap,
    builder: &mut SemanticTokensBuilder,
)
    requires
        walk_modifiers_fit(modifier_map.legend()),
        expr_ok(*expr, source_bytes(*file)),
        expr.kind is Struct || expr.kind is Enum || expr.kind is ValueEnum || expr.kind is Interface
            || expr.kind is TypeAlias || expr.kind is Function || expr.kind is ImplBlock
            || expr.kind is Const || expr.kind is VariableDeclaration || expr.kind is ModuleImport,
    ensures
        final(builder)@ == old(builder)@ + mark_tokens(
            line_index.text(),
            expr_marks(*expr, *file, *snapshot, type_map.legend(), modifier_map.legend()),
        ),
    decreases expr, 0int,
{
    let ghost tys = type_map.legend();
    let ghost mods = modifier_map.legend();
    let ghost lt = line_index.text();
    let ghost src = source_bytes(*file);
    match &expr.kind {
        ExpressionKind::Struct { name_span } => {
            proof {
                assert(expr_marks(*expr, *file, *snapshot, tys, mods) == one(*name_span, tok(tys, TokenType::Struct), decl_bits(mods))) by {
                    reveal(expr_marks);
                }
            }
            let t = type_map.get(TokenType::Struct);
            let m = declaration_bits(modifier_map);
            builder.push(line_index, name_span, t, m);
        },
        ExpressionKind::Enum { name_span } => {
            proof {
                assert(expr_marks(*expr, *file, *snapshot, tys, mods) == one(*name_span, tok(tys, TokenType::Enum), decl_bits(mods))) by {
                    reveal(expr_marks);
                }
            }
            let t = type_map.get(TokenType::Enum);
            let m = declaration_bits(modifier_map);
            builder.push(line_index, name_span, t, m);
        },
        ExpressionKind::ValueEnum { name_span } => {
            proof {
                assert(expr_marks(*expr, *file, *snapshot, tys, mods) == one(*name_span, tok(tys, TokenType::Enum), decl_bits(mods))) by {
                    reveal(expr_marks);
                }
            }
            let t = type_map.get(TokenType::Enum);
            let m = declaration_bits(modifier_map);
            builder.push(line_index, name_span, t, m);
        },
        ExpressionKind::Interface { name_span } => {
            proof {
                assert(expr_marks(*expr, *file, *snapshot, tys, mods) == one(*name_span, tok(tys, TokenType::Interface), decl_bits(mods))) by {
                    reveal(expr_marks);
                }
            }
            let t = type_map.get(TokenType::Interface);
            let m = declaration_bits(modifier_map);
            builder.push(line_index, name_span, t, m);
        },
        ExpressionKind::TypeAlias { name_span } => {
            proof {
                assert(expr_marks(*expr, *file, *snapshot, tys, mods) == one(*name_span, tok(tys, TokenType::Type), decl_bits(mods))) by {
                    reveal(expr_marks);
                }
            }
            let t = type_map.get(TokenType::Type);
            let m = declaration_bits(modifier_map);
            builder.push(line_index, name_span, t, m);
        },
        ExpressionKind::Function { name_span, params, body } => {
            proof {
                assert(expr_ok(**body, src)) by {
                    reveal(expr_ok);
                }
                assert(expr_marks(*expr, *file, *snapshot, tys, mods) == one(*name_span, tok(tys, TokenType::Function), decl_bits(mods)) + params_marks(params@, tys, mods) + expr_marks(**body, *file, *snapshot, tys, mods)) by {
                    reveal(expr_marks);
                }
            }
            let t = type_map.get(TokenType::Function);
            let m = declaration_bits(modifier_map);
            builder.push(line_index, name_span, t, m);
            emit_params(params, line_index, type_map, modifier_map, builder);
            emit_tokens(body, file, snapshot, line_index, type_map, modifier_map, builder);
            proof {
                lemma_mark_tokens_concat3(lt, one(*name_span, t, m), params_marks(params@, tys, mods), expr_marks(**body, *file, *snapshot, tys, mods));
            }
        },
        ExpressionKind::ImplBlock { methods } => {
            proof {
                assert(exprs_ok(methods@, src)) by {
                    reveal(expr_ok);
                }
                assert(expr_marks(*expr, *file, *snapshot, tys, mods) == methods_marks(methods@, *file, *snapshot, tys, mods)) by {
                    reveal(expr_marks);
                }
            }
            emit_methods(methods, file, snapshot, line_index, type_map, modifier_map, builder);
        },
        ExpressionKind::Const { identifier_span } => {
            proof {
                assert(expr_marks(*expr, *file, *snapshot, tys, mods) == one(*identifier_span, tok(tys, TokenType::Variable), const_bits(mods))) by {
                    reveal(expr_marks);
                }
            }
            let t = type_map.get(TokenType::Variable);
            let m = constant_bits(modifier_map);
            builder.push(line_index, identifier_span, t, m);
        },
        ExpressionKind::VariableDeclaration { name_span } => {
            proof {
                assert(expr_marks(*expr, *file, *snapshot, tys, mods) == one(*name_span, tok(tys, TokenType::Variable), decl_bits(mods))) by {
                    reveal(expr_marks);
                }
            }
            let t = type_map.get(TokenType::Variable);
            let m = declaration_bits(modifier_map);
            builder.push(line_index, name_span, t, m);
        },
        ExpressionKind::ModuleImport { name_span, alias } => {
            let ghost alias_marks = match alias {
                Some(ImportAlias::Named { span }) => one(*span, tok(tys, TokenType::Namespace), decl_bits(mods)),
                Some(ImportAlias::Blank { span }) => one(*span, tok(tys, TokenType::Namespace), decl_bits(mods)),
                None => Seq::<Mark>::empty(),
            };
            proof {
                assert(expr_marks(*expr, *file, *snapshot, tys, mods) == one(*name_span, tok(tys, TokenType::Namespace), 0) + alias_marks) by {
                    reveal(expr_marks);
                }
            }
            let t = type_map.get(TokenType::Namespace);
            builder.push(line_index, name_span, t, 0);
            let ghost after_name = builder@;
            if let Some(alias) = alias {
                match alias {
                    ImportAlias::Named { span } | ImportAlias::Blank { span } => {
                        let t = type_map.get(TokenType::Namespace);
                        let m = declaration_bits(modifier_map);
                        builder.push(line_index, span, t, m);
                    },
                }
            } else {
                proof {
                    lemma_mark_tokens_empty(lt);
                    assert(builder@ + Seq::<AbsoluteToken>::empty() =~= builder@);
                }
            }
            proof {
                assert(builder@ == after_name + mark_tokens(lt, alias_marks));
                lemma_mark_tokens_concat(lt, one(*name_span, t, 0), alias_marks);
            }
        },
        _ => {},
    }
}

/// The forms that bind names: `let`, `for`, lambdas, matches, `if let` and
/// `while let`: their patterns, then what they evaluate.
fn emit_binding_form_tokens(
    expr: &Expression,
    file: &File,
    snapshot: &AnalysisSnapshot,
    line_index: &LineIndex,
    type_map: &TokenTypeMap,
    modifier_map: &TokenModifierMap,
    builder: &mut SemanticTokensBuilder,
)
    requires
        walk_modifiers_fit(modifier_map.legend()),
        expr_ok(*expr, source_bytes(*file)),
        expr.kind is Let || expr.kind is For || expr.kind is Lambda || expr.kind is Match
            || expr.kind is IfLet || expr.kind is WhileLet,
    ensures
        final(builder)@ == old(builder)@ + mark_tokens(
            line_index.text(),
            expr_marks(*expr, *file, *snapshot, type_map.legend(), modifier_map.legend()),
        ),
    decreases expr, 0int,
{
    let ghost tys = type_map.legend();
    let ghost mods = modifier_map.legend();
    let ghost lt = line_index.text();
    let ghost src = source_bytes(*file);
    match &expr.kind {
        ExpressionKind::Let { binding, value } => {
            proof {
                assert(expr_ok(**value, src)) by {
                    reveal(expr_ok);
                }
                assert(expr_marks(*expr, *file, *snapshot, tys, mods) == pattern_marks(binding.pattern, tys, mods) + expr_marks(**value, *file, *snapshot, tys, mods)) by {
                    reveal(expr_marks);
                }
            }
            emit_pattern_tokens(&binding.pattern, line_index, type_map, modifier_map, builder);
            emit_tokens(value, file, snapshot, line_index, type_map, modifier_map, builder);
            proof {
                lemma_mark_tokens_concat(
                    lt,
                    pattern_marks(binding.pattern, tys, mods),
                    expr_marks(**value, *file, *snapshot, tys, mods),
                );
            }
        },
        ExpressionKind::For { binding, iterable, body } => {
            proof {
                assert(expr_ok(**iterable, src) && expr_ok(**body, src)) by {
                    reveal(expr_ok);
                }
                assert(expr_marks(*expr, *file, *snapshot, tys, mods) == pattern_marks(binding.pattern, tys, mods) + expr_marks(**iterable, *file, *snapshot, tys, mods) + expr_marks(**body, *file, *snapshot, tys, mods)) by {
                    reveal(expr_marks);
                }
            }
            emit_pattern_tokens(&binding.pattern, line_index, type_map, modifier_map, builder);
            emit_tokens(iterable, file, snapshot, line_index, type_map, modifier_map, builder);
            emit_tokens(body, file, snapshot, line_index, type_map, modifier_map, builder);
            proof {
                lemma_mark_tokens_concat3(
                    lt,
                    pattern_marks(binding.pattern, tys, mods),
                    expr_marks(**iterable, *file, *snapshot, tys, mods),
                    expr_marks(**body, *file, *snapshot, tys, mods),
                );
            }
        },
        ExpressionKind::Lambda { params, body } => {
            proof {
                assert(expr_ok(**body, src)) by {
                    reveal(expr_ok);
                }
                assert(expr_marks(*expr, *file, *snapshot, tys, mods) == params_marks(params@, tys, mods) + expr_marks(**body, *file, *snapshot, tys, mods)) by {
                    reveal(expr_marks);
                }
            }
            emit_params(params, line_index, type_map, modifier_map, builder);
            emit_tokens(body, file, snapshot, line_index, type_map, modifier_map, builder);
            proof {
                lemma_mark_tokens_concat(
                    lt,
                    params_marks(params@, tys, mods),
                    expr_marks(**body, *file, *snapshot, tys, mods),
                );
            }
        },
        ExpressionKind::Match { arms } => {
            proof {
                assert(arms_ok(arms@, src)) by {
                    reveal(expr_ok);
                }
                assert(expr_marks(*expr, *file, *snapshot, tys, mods) == arms_marks(arms@, *file, *snapshot, tys, mods)) by {
                    reveal(expr_marks);
                }
            }
            emit_match_arms(arms, file, snapshot, line_index, type_map, modifier_map, builder);
        },
        ExpressionKind::IfLet { pattern, scrutinee, consequence, alternative } => {
            proof {
                assert(expr_ok(**scrutinee, src) && expr_ok(**consequence, src) && expr_ok(**alternative, src)) by {
                    reveal(expr_ok);
                }
                assert(expr_marks(*expr, *file, *snapshot, tys, mods) == pattern_marks(*pattern, tys, mods) + expr_marks(**scrutinee, *file, *snapshot, tys, mods) + expr_marks(**consequence, *file, *snapshot, tys, mods) + expr_marks(**alternative, *file, *snapshot, tys, mods)) by {
                    reveal(expr_marks);
                }
            }
            emit_pattern_tokens(pattern, line_index, type_map, modifier_map, builder);
            emit_tokens(scrutinee, file, snapshot, line_index, type_map, modifier_map, builder);
            emit_tokens(consequence, file, snapshot, line_index, type_map, modifier_map, builder);
            emit_tokens(alternative, file, snapshot, line_index, type_map, modifier_map, builder);
            proof {
                lemma_mark_tokens_concat4(
                    lt,
                    pattern_marks(*pattern, tys, mods),
                    expr_marks(**scrutinee, *file, *snapshot, tys, mods),
                    expr_marks(**consequence, *file, *snapshot, tys, mods),
                    expr_marks(**alternative, *file, *snapshot, tys, mods),
                );
            }
        },
        ExpressionKind::WhileLet { pattern, scrutinee, body } => {
            proof {
                assert(expr_ok(**scrutinee, src) && expr_ok(**body, src)) by {
                    reveal(expr_ok);
                }
                assert(expr_marks(*expr, *file, *snapshot, tys, mods) == pattern_marks(*pattern, tys, mods) + expr_marks(**scrutinee, *file, *snapshot, tys, mods) + expr_marks(**body, *file, *snapshot, tys, mods)) by {
                    reveal(expr_marks);
                }
            }
            emit_pattern_tokens(pattern, line_index, type_map, modifier_map, builder);
            emit_tokens(scrutinee, file, snapshot, line_index, type_map, modifier_map, builder);
            emit_tokens(body, file, snapshot, line_index, type_map, modifier_map, builder);
            proof {
                lemma_mark_tokens_concat3(
                    lt,
                    pattern_marks(*pattern, tys, mods),
                    expr_marks(**scrutinee, *file, *snapshot, tys, mods),
                    expr_marks(**body, *file, *snapshot, tys, mods),
                );
            }
        },
        _ => {},
    }
}

/// The forms around an operator or a member: their operands, then the
/// operator or member itself.
fn emit_operator_tokens(
    expr: &Expression,
    file: &File,
    snapshot: &AnalysisSnapshot,
    line_index: &LineIndex,
    type_map: &TokenTypeMap,
    modifier_map: &TokenModifierMap,
    builder: &mut SemanticTokensBuilder,
)
    requires
        walk_modifiers_fit(modifier_map.legend()),
        expr_ok(*expr, source_bytes(*file)),
        expr.kind is DotAccess || expr.kind is Binary || expr.kind is Unary || expr.kind is Range
            || expr.kind is Propagate || expr.kind is Assignment,
    ensures
        final(builder)@ == old(builder)@ + mark_tokens(
            line_index.text(),
            expr_marks(*expr, *file, *snapshot, type_map.legend(), modifier_map.legend()),
        ),
    decreases expr, 0int,
{
    let ghost tys = type_map.legend();
    let ghost mods = modifier_map.legend();
    let ghost lt = line_index.text();
    let ghost src = source_bytes(*file);
    let text = file.source.as_str().as_bytes();
    assert(text@ == source_bytes(*file));
    let span = expr.get_span();
    match &expr.kind {
        ExpressionKind::DotAccess { expression, member, receiver_type } => {
            proof {
                assert(expr_ok(**expression, src) && (span.byte_length > byte_len_u32(*member)
                    ==> span_end(span) <= u32::MAX)) by {
                    reveal(expr_ok);
                }
                let member_len = byte_len_u32(*member);
                assert(expr_marks(*expr, *file, *snapshot, tys, mods) == expr_marks(**expression, *file, *snapshot, tys, mods) + if span.byte_length > member_len {
                    one(
                        Span {
                            file_id: span.file_id,
                            byte_offset: (span_end(span) - member_len) as u32,
                            byte_length: member_len,
                            dummy: false,
                        },
                        member_token_type(*receiver_type, member@, *snapshot, tys),
                        0,
                    )
                } else {
                    Seq::empty()
                }) by {
                    reveal(expr_marks);
                }
            }
            emit_tokens(expression, file, snapshot, line_index, type_map, modifier_map, builder);
            let member_type = resolve_dot_access_member(receiver_type, member, snapshot, type_map);
            let member_str = member.as_str();
            let member_bytes = member_str.len();
            assert(member_str@ == member@);
            assert(member_bytes == member_str.spec_bytes().len() as usize);
            let member_len = #[verifier::truncate] (member_bytes as u32);
            assert(member_len == byte_len_u32(*member));
            let ghost inner = expr_marks(**expression, *file, *snapshot, tys, mods);
            if span.byte_length > member_len {
                let member_span = Span::new(
                    span.file_id,
                    span.byte_offset + span.byte_length - member_len,
                    member_len,
                );
                builder.push(line_index, &member_span, member_type, 0);
                proof {
                    lemma_mark_tokens_concat(lt, inner, one(member_span, member_type, 0));
                }
            } else {
                proof {
                    lemma_mark_tokens_concat(lt, inner, Seq::empty());
                    lemma_mark_tokens_empty(lt);
                    assert(inner + Seq::<Mark>::empty() =~= inner);
                }
            }
        },
        ExpressionKind::Binary { left, right } => {
            proof {
                assert(expr_ok(**left, src) && expr_ok(**right, src) && span_end(left.span) <= u32::MAX
                    && (span_end(left.span) < right.span.byte_offset ==> slice_ok(
                    src,
                    span_end(left.span),
                    right.span.byte_offset as int,
                ))) by {
                    reveal(expr_ok);
                }
                assert(expr_marks(*expr, *file, *snapshot, tys, mods) == expr_marks(**left, *file, *snapshot, tys, mods) + trimmed_operator_marks(
                    src,
                    span_end(left.span),
                    right.span.byte_offset as int,
                    span.file_id,
                    tys,
                ) + expr_marks(**right, *file, *snapshot, tys, mods)) by {
                    reveal(expr_marks);
                }
            }
            emit_tokens(left, file, snapshot, line_index, type_map, modifier_map, builder);
            let left_span = left.get_span();
            let right_span = right.get_span();
            let op_start = left_span.byte_offset + left_span.byte_length;
            let op_end = right_span.byte_offset;
            push_trimmed_operator(text, op_start, op_end, span.file_id, line_index, type_map, builder);
            emit_tokens(right, file, snapshot, line_index, type_map, modifier_map, builder);
            proof {
                lemma_mark_tokens_concat3(
                    lt,
                    expr_marks(**left, *file, *snapshot, tys, mods),
                    trimmed_operator_marks(text@, op_start as int, op_end as int, span.file_id, tys),
                    expr_marks(**right, *file, *snapshot, tys, mods),
                );
            }
        },
        ExpressionKind::Unary { expression } => {
            proof {
                assert(expr_ok(**expression, src) && (span.byte_offset < expression.span.byte_offset
                    ==> slice_ok(
                    src,
                    span.byte_offset as int,
                    expression.span.byte_offset as int,
                ))) by {
                    reveal(expr_ok);
                }
                assert(expr_marks(*expr, *file, *snapshot, tys, mods) == trimmed_operator_marks(
                    src,
                    span.byte_offset as int,
                    expression.span.byte_offset as int,
                    span.file_id,
                    tys,
                ) + expr_marks(**expression, *file, *snapshot, tys, mods)) by {
                    reveal(expr_marks);
                }
            }
            let expr_span = expression.get_span();
            push_trimmed_operator(
                text,
                span.byte_offset,
                expr_span.byte_offset,
                span.file_id,
                line_index,
                type_map,
                builder,
            );
            emit_tokens(expression, file, snapshot, line_index, type_map, modifier_map, builder);
            proof {
                lemma_mark_tokens_concat(
                    lt,
                    trimmed_operator_marks(
                        text@,
                        span.byte_offset as int,
                        expr_span.byte_offset as int,
                        span.file_id,
                        tys,
                    ),
                    expr_marks(**expression, *file, *snapshot, tys, mods),
                );
            }
        },
        ExpressionKind::Range { start, end } => {
            let ghost start_marks = match start {
                Some(s) => expr_marks(**s, *file, *snapshot, tys, mods),
                None => Seq::<Mark>::empty(),
            };
            let ghost end_marks = match end {
                Some(x) => expr_marks(**x, *file, *snapshot, tys, mods),
                None => Seq::<Mark>::empty(),
            };
            let ghost b0 = builder@;
            let ghost from = match start {
                Some(s) => span_end(s.span),
                None => span.byte_offset as int,
            };
            let ghost to = match end {
                Some(x) => x.span.byte_offset as int,
                None => span_end(span),
            };
            proof {
                lemma_mark_tokens_empty(lt);
                assert({
                    &&& span_end(span) <= u32::MAX
                    &&& match start {
                        Some(s) => expr_ok(**s, src) && span_end(s.span) <= u32::MAX,
                        None => true,
                    }
                    &&& match end {
                        Some(x) => expr_ok(**x, src),
                        None => true,
                    }
                    &&& from < to ==> slice_ok(src, from, to)
                }) by {
                    reveal(expr_ok);
                }
                assert(expr_marks(*expr, *file, *snapshot, tys, mods) == start_marks
                    + range_operator_marks(src, from, to, span.file_id, tys) + end_marks) by {
                    reveal(expr_marks);
                }
            }
            let mut range_start = span.byte_offset;
            let mut range_end = span.byte_offset + span.byte_length;
            if let Some(start) = start {
                emit_tokens(start, file, snapshot, line_index, type_map, modifier_map, builder);
                let start_span = start.get_span();
                range_start = start_span.byte_offset + start_span.byte_length;
            } else {
                assert(builder@ + Seq::<AbsoluteToken>::empty() =~= builder@);
            }
            let ghost b1 = builder@;
            assert(b1 == b0 + mark_tokens(lt, start_marks));
            if let Some(end) = end {
                let end_span = end.get_span();
                range_end = end_span.byte_offset;
            }
            push_range_operator(
                text,
                range_start,
                range_end,
                span.file_id,
                line_index,
                type_map,
                builder,
            );
            let ghost b2 = builder@;
            if let Some(end) = end {
                emit_tokens(end, file, snapshot, line_index, type_map, modifier_map, builder);
            } else {
                assert(builder@ + Seq::<AbsoluteToken>::empty() =~= builder@);
            }
            assert(builder@ == b2 + mark_tokens(lt, end_marks));
            proof {
                lemma_mark_tokens_concat3(
                    lt,
                    start_marks,
                    range_operator_marks(
                        text@,
                        range_start as int,
                        range_end as int,
                        span.file_id,
                        tys,
                    ),
                    end_marks,
                );
            }
        },
        ExpressionKind::Propagate { expression } => {
            proof {
                assert(expr_ok(**expression, src) && span_end(expression.span) <= u32::MAX
                    && span_end(span) <= u32::MAX && (span_end(expression.span) < span_end(span)
                    ==> slice_ok(src, span_end(expression.span), span_end(span)))) by {
                    reveal(expr_ok);
                }
                assert(expr_marks(*expr, *file, *snapshot, tys, mods) == expr_marks(**expression, *file, *snapshot, tys, mods) + propagate_operator_marks(
                    src,
                    span_end(expression.span),
                    span_end(span),
                    span.file_id,
                    tys,
                )) by {
                    reveal(expr_marks);
                }
            }
            emit_tokens(expression, file, snapshot, line_index, type_map, modifier_map, builder);
            let expr_span = expression.get_span();
            let op_start = expr_span.byte_offset + expr_span.byte_length;
            let op_end = span.byte_offset + span.byte_length;
            push_propagate_operator(
                text,
                op_start,
                op_end,
                span.file_id,
                line_index,
                type_map,
                builder,
            );
            proof {
                lemma_mark_tokens_concat(
                    lt,
                    expr_marks(**expression, *file, *snapshot, tys, mods),
                    propagate_operator_marks(text@, op_start as int, op_end as int, span.file_id, tys),
                );
            }
        },
        ExpressionKind::Assignment { target, value } => {
            proof {
                assert(expr_ok(**target, src) && expr_ok(**value, src) && span_end(target.span)
                    <= u32::MAX && (span_end(target.span) < value.span.byte_offset ==> slice_ok(
                    src,
                    span_end(target.span),
                    value.span.byte_offset as int,
                ))) by {
                    reveal(expr_ok);
                }
                assert(expr_marks(*expr, *file, *snapshot, tys, mods) == expr_marks(**target, *file, *snapshot, tys, mods) + trimmed_operator_marks(
                    src,
                    span_end(target.span),
                    value.span.byte_offset as int,
                    span.file_id,
                    tys,
                ) + expr_marks(**value, *file, *snapshot, tys, mods)) by {
                    reveal(expr_marks);
                }
            }
            emit_tokens(target, file, snapshot, line_index, type_map, modifier_map, builder);
            let target_span = target.get_span();
            let value_span = value.get_span();
            let op_start = target_span.byte_offset + target_span.byte_length;
            let op_end = value_span.byte_offset;
            push_trimmed_operator(text, op_start, op_end, span.file_id, line_index, type_map, builder);
            emit_tokens(value, file, snapshot, line_index, type_map, modifier_map, builder);
            proof {
                lemma_mark_tokens_concat3(
                    lt,
                    expr_marks(**target, *file, *snapshot, tys, mods),
                    trimmed_operator_marks(text@, op_start as int, op_end as int, span.file_id, tys),
                    expr_marks(**value, *file, *snapshot, tys, mods),
                );
            }
        },
        _ => {},
    }
}

/// Identifiers and literals.
fn emit_leaf_tokens(
    expr: &Expression,
    file: &File,
    snapshot: &AnalysisSnapshot,
    line_index: &LineIndex,
    type_map: &TokenTypeMap,
    modifier_map: &TokenModifierMap,
    builder: &mut SemanticTokensBuilder,
)
    requires
        walk_modifiers_fit(modifier_map.legend()),
        expr_ok(*expr, source_bytes(*file)),
        expr.kind is Identifier || expr.kind is Literal,
    ensures
        final(builder)@ == old(builder)@ + mark_tokens(
            line_index.text(),
            expr_marks(*expr, *file, *snapshot, type_map.legend(), modifier_map.legend()),
        ),
    decreases expr, 0int,
{
    let ghost tys = type_map.legend();
    let ghost mods = modifier_map.legend();
    let ghost lt = line_index.text();
    let ghost src = source_bytes(*file);
    let span = expr.get_span();
    match &expr.kind {
        ExpressionKind::Identifier { value, qualified, binding_id } => {
            proof {
                assert(expr_marks(*expr, *file, *snapshot, tys, mods) == identifier_marks(
                    span,
                    *value,
                    *qualified,
                    *binding_id,
                    *file,
                    *snapshot,
                    tys,
                )) by {
                    reveal(expr_marks);
                }
            }
            emit_identifier(
                &span,
                value,
                qualified,
                binding_id,
                file,
                snapshot,
                line_index,
                type_map,
                builder,
            );
        },
        ExpressionKind::Literal { literal } => {
            match literal {
                Literal::FormatString(parts) => {
                    proof {
                        assert(format_parts_ok(parts@, src)) by {
                            reveal(expr_ok);
                        }
                        assert(expr_marks(*expr, *file, *snapshot, tys, mods) == one(
                            span,
                            tok(tys, TokenType::StringLit),
                            0,
                        ) + format_parts_marks(parts@, *file, *snapshot, tys, mods)) by {
                            reveal(expr_marks);
                        }
                    }
                    let t = type_map.get(TokenType::StringLit);
                    builder.push(line_index, &span, t, 0);
                    emit_format_parts(parts, file, snapshot, line_index, type_map, modifier_map, builder);
                    proof {
                        lemma_mark_tokens_concat(
                            lt,
                            one(span, t, 0),
                            format_parts_marks(parts@, *file, *snapshot, tys, mods),
                        );
                    }
                },
                Literal::Slice(elements) => {
                    proof {
                        assert(exprs_ok(elements@, src)) by {
                            reveal(expr_ok);
                        }
                        assert(expr_marks(*expr, *file, *snapshot, tys, mods) == exprs_marks(
                            elements@,
                            *file,
                            *snapshot,
                            tys,
                            mods,
                        )) by {
                            reveal(expr_marks);
                        }
                    }
                    emit_all(elements, file, snapshot, line_index, type_map, modifier_map, builder);
                },
                other => {
                    let token_type = match other {
                        Literal::Integer | Literal::Float | Literal::Imaginary => TokenType::Number,
                        Literal::Str | Literal::Char => TokenType::StringLit,
                        _ => TokenType::Keyword,
                    };
                    let t = type_map.get(token_type);
                    proof {
                        assert(expr_marks(*expr, *file, *snapshot, tys, mods) == one(
                            span,
                            tok(tys, token_type),
                            0,
                        )) by {
                            reveal(expr_marks);
                        }
                    }
                    builder.push(line_index, &span, t, 0);
                },
            }
        },
        _ => {},
    }
}

/// The forms that only nest other expressions: each of them, in order.
fn emit_nested_tokens(
    expr: &Expression,
    file: &File,
    snapshot: &AnalysisSnapshot,
    line_index: &LineIndex,
    type_map: &TokenTypeMap,
    modifier_map: &TokenModifierMap,
    builder: &mut SemanticTokensBuilder,
)
    requires
        walk_modifiers_fit(modifier_map.legend()),
        expr_ok(*expr, source_bytes(*file)),
        expr.kind is StructCall || expr.kind is Block || expr.kind is Tuple || expr.kind is Call
            || expr.kind is If || expr.kind is While || expr.kind is Return || expr.kind is Defer
            || expr.kind is Select || expr.kind is Task || expr.kind is TryBlock
            || expr.kind is RecoverBlock || expr.kind is Break || expr.kind is Paren
            || expr.kind is IndexedAccess || expr.kind is Cast || expr.kind is Loop
            || expr.kind is Reference,
    ensures
        final(builder)@ == old(builder)@ + mark_tokens(
            line_index.text(),
            expr_marks(*expr, *file, *snapshot, type_map.legend(), modifier_map.legend()),
        ),
    decreases expr, 0int,
{
    let ghost tys = type_map.legend();
    let ghost mods = modifier_map.legend();
    let ghost lt = line_index.text();
    let ghost src = source_bytes(*file);
    match &expr.kind {
        ExpressionKind::StructCall { name_span, variant, field_values } => {
            let ghost ty = if *variant { TokenType::EnumMember } else { TokenType::Function };
            proof {
                assert(exprs_ok(field_values@, src)) by {
                    reveal(expr_ok);
                }
                assert(expr_marks(*expr, *file, *snapshot, tys, mods) == one(*name_span, tok(tys, ty), 0) + exprs_marks(field_values@, *file, *snapshot, tys, mods)) by {
                    reveal(expr_marks);
                }
            }
            let t = if *variant {
                type_map.get(TokenType::EnumMember)
            } else {
                type_map.get(TokenType::Function)
            };
            builder.push(line_index, name_span, t, 0);
            emit_all(field_values, file, snapshot, line_index, type_map, modifier_map, builder);
            proof {
                lemma_mark_tokens_concat(lt, one(*name_span, t, 0), exprs_marks(field_values@, *file, *snapshot, tys, mods));
            }
        },
        ExpressionKind::Block { items } => {
            proof {
                assert(exprs_ok(items@, src)) by {
                    reveal(expr_ok);
                }
                assert(expr_marks(*expr, *file, *snapshot, tys, mods) == exprs_marks(items@, *file, *snapshot, tys, mods)) by {
                    reveal(expr_marks);
                }
            }
            emit_all(items, file, snapshot, line_index, type_map, modifier_map, builder);
        },
        ExpressionKind::Tuple { elements } => {
            proof {
                assert(exprs_ok(elements@, src)) by {
                    reveal(expr_ok);
                }
                assert(expr_marks(*expr, *file, *snapshot, tys, mods) == exprs_marks(elements@, *file, *snapshot, tys, mods)) by {
                    reveal(expr_marks);
                }
            }
            emit_all(elements, file, snapshot, line_index, type_map, modifier_map, builder);
        },
        ExpressionKind::Call { expression, args } => {
            proof {
                assert(expr_ok(**expression, src) && exprs_ok(args@, src)) by {
                    reveal(expr_ok);
                }
                assert(expr_marks(*expr, *file, *snapshot, tys, mods) == expr_marks(**expression, *file, *snapshot, tys, mods) + exprs_marks(args@, *file, *snapshot, tys, mods)) by {
                    reveal(expr_marks);
                }
            }
            emit_tokens(expression, file, snapshot, line_index, type_map, modifier_map, builder);
            emit_all(args, file, snapshot, line_index, type_map, modifier_map, builder);
            proof {
                lemma_mark_tokens_concat(
                    lt,
                    expr_marks(**expression, *file, *snapshot, tys, mods),
                    exprs_marks(args@, *file, *snapshot, tys, mods),
                );
            }
        },
        ExpressionKind::If { condition, consequence, alternative } => {
            proof {
                assert(expr_ok(**condition, src) && expr_ok(**consequence, src) && expr_ok(**alternative, src)) by {
                    reveal(expr_ok);
                }
                assert(expr_marks(*expr, *file, *snapshot, tys, mods) == expr_marks(**condition, *file, *snapshot, tys, mods) + expr_marks(**consequence, *file, *snapshot, tys, mods) + expr_marks(**alternative, *file, *snapshot, tys, mods)) by {
                    reveal(expr_marks);
                }
            }
            emit_tokens(condition, file, snapshot, line_index, type_map, modifier_map, builder);
            emit_tokens(consequence, file, snapshot, line_index, type_map, modifier_map, builder);
            emit_tokens(alternative, file, snapshot, line_index, type_map, modifier_map, builder);
            proof {
                lemma_mark_tokens_concat3(
                    lt,
                    expr_marks(**condition, *file, *snapshot, tys, mods),
                    expr_marks(**consequence, *file, *snapshot, tys, mods),
                    expr_marks(**alternative, *file, *snapshot, tys, mods),
                );
            }
        },
        ExpressionKind::While { condition, body } => {
            proof {
                assert(expr_ok(**condition, src) && expr_ok(**body, src)) by {
                    reveal(expr_ok);
                }
                assert(expr_marks(*expr, *file, *snapshot, tys, mods) == expr_marks(**condition, *file, *snapshot, tys, mods) + expr_marks(**body, *file, *snapshot, tys, mods)) by {
                    reveal(expr_marks);
                }
            }
            emit_tokens(condition, file, snapshot, line_index, type_map, modifier_map, builder);
            emit_tokens(body, file, snapshot, line_index, type_map, modifier_map, builder);
            proof {
                lemma_mark_tokens_concat(
                    lt,
                    expr_marks(**condition, *file, *snapshot, tys, mods),
                    expr_marks(**body, *file, *snapshot, tys, mods),
                );
            }
        },
        ExpressionKind::Return { expression } => {
            proof {
                assert(expr_ok(**expression, src)) by {
                    reveal(expr_ok);
                }
                assert(expr_marks(*expr, *file, *snapshot, tys, mods) == expr_marks(**expression, *file, *snapshot, tys, mods)) by {
                    reveal(expr_marks);
                }
            }
            emit_tokens(expression, file, snapshot, line_index, type_map, modifier_map, builder);
        },
        ExpressionKind::Defer { expression } => {
            proof {
                assert(expr_ok(**expression, src)) by {
                    reveal(expr_ok);
                }
                assert(expr_marks(*expr, *file, *snapshot, tys, mods) == expr_marks(**expression, *file, *snapshot, tys, mods)) by {
                    reveal(expr_marks);
                }
            }
            emit_tokens(expression, file, snapshot, line_index, type_map, modifier_map, builder);
        },
        ExpressionKind::Select { arms } => {
            proof {
                assert(select_arms_ok(arms@, src)) by {
                    reveal(expr_ok);
                }
                assert(expr_marks(*expr, *file, *snapshot, tys, mods) == select_arms_marks(arms@, *file, *snapshot, tys, mods)) by {
                    reveal(expr_marks);
                }
            }
            emit_select_arms(arms, file, snapshot, line_index, type_map, modifier_map, builder);
        },
        ExpressionKind::Task { expression } => {
            proof {
                assert(expr_ok(**expression, src)) by {
                    reveal(expr_ok);
                }
                assert(expr_marks(*expr, *file, *snapshot, tys, mods) == expr_marks(**expression, *file, *snapshot, tys, mods)) by {
                    reveal(expr_marks);
                }
            }
            emit_tokens(expression, file, snapshot, line_index, type_map, modifier_map, builder);
        },
        ExpressionKind::TryBlock { items } => {
            proof {
                assert(exprs_ok(items@, src)) by {
                    reveal(expr_ok);
                }
                assert(expr_marks(*expr, *file, *snapshot, tys, mods) == exprs_marks(items@, *file, *snapshot, tys, mods)) by {
                    reveal(expr_marks);
                }
            }
            emit_all(items, file, snapshot, line_index, type_map, modifier_map, builder);
        },
        ExpressionKind::RecoverBlock { items } => {
            proof {
                assert(exprs_ok(items@, src)) by {
                    reveal(expr_ok);
                }
                assert(expr_marks(*expr, *file, *snapshot, tys, mods) == exprs_marks(items@, *file, *snapshot, tys, mods)) by {
                    reveal(expr_marks);
                }
            }
            emit_all(items, file, snapshot, line_index, type_map, modifier_map, builder);
        },
        ExpressionKind::Break { value } => {
            proof {
                assert(match value {
                    Some(v) => expr_ok(**v, src),
                    None => true,
                }) by {
                    reveal(expr_ok);
                }
                assert(expr_marks(*expr, *file, *snapshot, tys, mods) == match value {
                    Some(v) => expr_marks(**v, *file, *snapshot, tys, mods),
                    None => Seq::empty(),
                }) by {
                    reveal(expr_marks);
                }
            }
            if let Some(value) = value {
                emit_tokens(value, file, snapshot, line_index, type_map, modifier_map, builder);
            } else {
                proof {
                    lemma_mark_tokens_empty(lt);
                    assert(builder@ + Seq::<AbsoluteToken>::empty() =~= builder@);
                }
            }
        },
        ExpressionKind::Paren { expression } => {
            proof {
                assert(expr_ok(**expression, src)) by {
                    reveal(expr_ok);
                }
                assert(expr_marks(*expr, *file, *snapshot, tys, mods) == expr_marks(**expression, *file, *snapshot, tys, mods)) by {
                    reveal(expr_marks);
                }
            }
            emit_tokens(expression, file, snapshot, line_index, type_map, modifier_map, builder);
        },
        ExpressionKind::IndexedAccess { expression, index } => {
            proof {
                assert(expr_ok(**expression, src) && expr_ok(**index, src)) by {
                    reveal(expr_ok);
                }
                assert(expr_marks(*expr, *file, *snapshot, tys, mods) == expr_marks(**expression, *file, *snapshot, tys, mods) + expr_marks(**index, *file, *snapshot, tys, mods)) by {
                    reveal(expr_marks);
                }
            }
            emit_tokens(expression, file, snapshot, line_index, type_map, modifier_map, builder);
            emit_tokens(index, file, snapshot, line_index, type_map, modifier_map, builder);
            proof {
                lemma_mark_tokens_concat(
                    lt,
                    expr_marks(**expression, *file, *snapshot, tys, mods),
                    expr_marks(**index, *file, *snapshot, tys, mods),
                );
            }
        },
        ExpressionKind::Cast { expression } => {
            proof {
                assert(expr_ok(**expression, src)) by {
                    reveal(expr_ok);
                }
                assert(expr_marks(*expr, *file, *snapshot, tys, mods) == expr_marks(**expression, *file, *snapshot, tys, mods)) by {
                    reveal(expr_marks);
                }
            }
            emit_tokens(expression, file, snapshot, line_index, type_map, modifier_map, builder);
        },
        ExpressionKind::Loop { body } => {
            proof {
                assert(expr_ok(**body, src)) by {
                    reveal(expr_ok);
                }
                assert(expr_marks(*expr, *file, *snapshot, tys, mods) == expr_marks(**body, *file, *snapshot, tys, mods)) by {
                    reveal(expr_marks);
                }
            }
            emit_tokens(body, file, snapshot, line_index, type_map, modifier_map, builder);
        },
        ExpressionKind::Reference { expression } => {
            proof {
                assert(expr_ok(**expression, src)) by {
                    reveal(expr_ok);
                }
                assert(expr_marks(*expr, *file, *snapshot, tys, mods) == expr_marks(**expression, *file, *snapshot, tys, mods)) by {
                    reveal(expr_marks);
                }
            }
            emit_tokens(expression, file, snapshot, line_index, type_map, modifier_map, builder);
        },
        _ => {},
    }
}

/// Highlights each expression of `items`, in order.
fn emit_all(
    items: &Vec<Expression>,
    file: &File,
    snapshot: &AnalysisSnapshot,
    line_index: &LineIndex,
    type_map: &TokenTypeMap,
    modifier_map: &TokenModifierMap,
    builder: &mut SemanticTokensBuilder,
)
    requires
        walk_modifiers_fit(modifier_map.legend()),
        exprs_ok(items@, source_bytes(*file)),
    ensures
        final(builder)@ == old(builder)@ + mark_tokens(
            line_index.text(),
            exprs_marks(items@, *file, *snapshot, type_map.legend(), modifier_map.legend()),
        ),
    decreases items@,
{
    let ghost tys = type_map.legend();
    let ghost mods = modifier_map.legend();
    let ghost lt = line_index.text();
    let ghost start = builder@;
    proof {
        lemma_mark_tokens_empty(line_index.text());
    }
    let mut i: usize = 0;
    while i < items.len()
        invariant
            i <= items@.len(),
            walk_modifiers_fit(modifier_map.legend()),
            exprs_ok(items@, source_bytes(*file)),
            builder@ == start + mark_tokens(lt, exprs_marks(items@.take(i as int), *file, *snapshot, tys, mods)),
            tys == type_map.legend(),
            mods == modifier_map.legend(),
            lt == line_index.text(),
        decreases items@.len() - i,
    {
        proof {
            assert(decreases_to!(items@ => items@[i as int]));
            assert(items@.take(i + 1).drop_last() =~= items@.take(i as int));
            assert(items@.take(i + 1).last() == items@[i as int]);
            lemma_exprs_ok_at(items@, source_bytes(*file), i as int);
            assert(exprs_marks(items@.take(i + 1), *file, *snapshot, tys, mods) == exprs_marks(
                items@.take(i as int),
                *file,
                *snapshot,
                tys,
                mods,
            ) + expr_marks(items@[i as int], *file, *snapshot, tys, mods)) by {
                reveal(expr_marks);
            }
        }
        emit_tokens(&items[i], file, snapshot, line_index, type_map, modifier_map, builder);
        proof {
            lemma_mark_tokens_concat(
                lt,
                exprs_marks(items@.take(i as int), *file, *snapshot, tys, mods),
                expr_marks(items@[i as int], *file, *snapshot, tys, mods),
            );
        }
        i = i + 1;
    }
    assert(items@.take(i as int) =~= items@);
}

/// Highlights the methods of an impl block, in order.
fn emit_methods(
    methods: &Vec<Expression>,
    file: &File,
    snapshot: &AnalysisSnapshot,
    line_index: &LineIndex,
    type_map: &TokenTypeMap,
    modifier_map: &TokenModifierMap,
    builder: &mut SemanticTokensBuilder,
)
    requires
        walk_modifiers_fit(modifier_map.legend()),
        exprs_ok(methods@, source_bytes(*file)),
    ensures
        final(builder)@ == old(builder)@ + mark_tokens(
            line_index.text(),
            methods_marks(methods@, *file, *snapshot, type_map.legend(), modifier_map.legend()),
        ),
    decreases methods@,
{
    let ghost tys = type_map.legend();
    let ghost mods = modifier_map.legend();
    let ghost lt = line_index.text();
    let ghost src = source_bytes(*file);
    let ghost start = builder@;
    proof {
        lemma_mark_tokens_empty(line_index.text());
    }
    let mut i: usize = 0;
    while i < methods.len()
        invariant
            i <= methods@.len(),
            walk_modifiers_fit(modifier_map.legend()),
            exprs_ok(methods@, src),
            src == source_bytes(*file),
            builder@ == start + mark_tokens(lt, methods_marks(methods@.take(i as int), *file, *snapshot, tys, mods)),
            tys == type_map.legend(),
            mods == modifier_map.legend(),
            lt == line_index.text(),
        decreases methods@.len() - i,
    {
        let method = &methods[i];
        let ghost before = builder@;
        proof {
            assert(decreases_to!(methods@ => methods@[i as int]));
            assert(methods@.take(i + 1).drop_last() =~= methods@.take(i as int));
            assert(methods@.take(i + 1).last() == methods@[i as int]);
            lemma_exprs_ok_at(methods@, src, i as int);
            assert(methods_marks(methods@.take(i + 1), *file, *snapshot, tys, mods) == methods_marks(
                methods@.take(i as int), *file, *snapshot, tys, mods) + match methods@[i as int].kind {
                ExpressionKind::Function { name_span, params, body } => one(
                    name_span,
                    tok(tys, TokenType::Method),
                    decl_bits(mods),
                ) + params_marks(params@, tys, mods) + expr_marks(*body, *file, *snapshot, tys, mods),
                _ => expr_marks(methods@[i as int], *file, *snapshot, tys, mods),
            }) by {
                reveal(expr_marks);
            }
        }
        match &method.kind {
            ExpressionKind::Function { name_span, params, body } => {
                proof {
                    assert(expr_ok(**body, src)) by {
                        reveal(expr_ok);
                    }
                }
                let t = type_map.get(TokenType::Method);
                let m = declaration_bits(modifier_map);
                builder.push(line_index, name_span, t, m);
                emit_params(params, line_index, type_map, modifier_map, builder);
                emit_tokens(body, file, snapshot, line_index, type_map, modifier_map, builder);
                proof {
                    lemma_mark_tokens_concat3(lt, one(*name_span, t, m), params_marks(params@, tys, mods), expr_marks(**body, *file, *snapshot, tys, mods));
                    lemma_mark_tokens_concat(
                        lt,
                        methods_marks(methods@.take(i as int), *file, *snapshot, tys, mods),
                        one(*name_span, t, m) + params_marks(params@, tys, mods) + expr_marks(**body, *file, *snapshot, tys, mods),
                    );
                }
            },
            _ => {
                emit_tokens(method, file, snapshot, line_index, type_map, modifier_map, builder);
                proof {
                    lemma_mark_tokens_concat(
                        lt,
                        methods_marks(methods@.take(i as int), *file, *snapshot, tys, mods),
                        expr_marks(*method, *file, *snapshot, tys, mods),
                    );
                }
            },
        }
        i = i + 1;
    }
    assert(methods@.take(i as int) =~= methods@);
}

/// Highlights each match arm: its pattern, guard and body.
fn emit_match_arms(
    arms: &Vec<MatchArm>,
    file: &File,
    snapshot: &AnalysisSnapshot,
    line_index: &LineIndex,
    type_map: &TokenTypeMap,
    modifier_map: &TokenModifierMap,
    builder: &mut SemanticTokensBuilder,
)
    requires
        walk_modifiers_fit(modifier_map.legend()),
        arms_ok(arms@, source_bytes(*file)),
    ensures
        final(builder)@ == old(builder)@ + mark_tokens(
            line_index.text(),
            arms_marks(arms@, *file, *snapshot, type_map.legend(), modifier_map.legend()),
        ),
    decreases arms@,
{
    let ghost tys = type_map.legend();
    let ghost mods = modifier_map.legend();
    let ghost lt = line_index.text();
    let ghost start = builder@;
    proof {
        lemma_mark_tokens_empty(line_index.text());
    }
    let mut i: usize = 0;
    while i < arms.len()
        invariant
            i <= arms@.len(),
            walk_modifiers_fit(modifier_map.legend()),
            arms_ok(arms@, source_bytes(*file)),
            builder@ == start + mark_tokens(lt, arms_marks(arms@.take(i as int), *file, *snapshot, tys, mods)),
            tys == type_map.legend(),
            mods == modifier_map.legend(),
            lt == line_index.text(),
        decreases arms@.len() - i,
    {
        let arm = &arms[i];
        proof {
            assert(decreases_to!(arms@ => arms@[i as int]));
            assert(arms@.take(i + 1).drop_last() =~= arms@.take(i as int));
            assert(arms@.take(i + 1).last() == arms@[i as int]);
            lemma_arms_ok_at(arms@, source_bytes(*file), i as int);
        }
        emit_pattern_tokens(&arm.pattern, line_index, type_map, modifier_map, builder);
        if let Some(guard) = &arm.guard {
            emit_tokens(guard, file, snapshot, line_index, type_map, modifier_map, builder);
        }
        emit_tokens(&arm.expression, file, snapshot, line_index, type_map, modifier_map, builder);
        proof {
            let a = arms@[i as int];
            let gm = match a.guard {
                Some(g) => expr_marks(*g, *file, *snapshot, tys, mods),
                None => Seq::empty(),
            };
            assert(arm_marks(a, *file, *snapshot, tys, mods) == pattern_marks(a.pattern, tys, mods)
                + gm + expr_marks(*a.expression, *file, *snapshot, tys, mods)) by {
                reveal(expr_marks);
            }
            assert(arms_marks(arms@.take(i + 1), *file, *snapshot, tys, mods) == arms_marks(
                arms@.take(i as int),
                *file,
                *snapshot,
                tys,
                mods,
            ) + arm_marks(a, *file, *snapshot, tys, mods)) by {
                reveal(expr_marks);
            }
            lemma_mark_tokens_empty(lt);
            lemma_mark_tokens_concat3(
                lt,
                pattern_marks(a.pattern, tys, mods),
                gm,
                expr_marks(*a.expression, *file, *snapshot, tys, mods),
            );
            lemma_mark_tokens_concat(
                lt,
                arms_marks(arms@.take(i as int), *file, *snapshot, tys, mods),
                arm_marks(a, *file, *snapshot, tys, mods),
            );
        }
        i = i + 1;
    }
    assert(arms@.take(i as int) =~= arms@);
}

/// Highlights the bodies of the arms of a receiving match in a select.
fn emit_receive_arms(
    arms: &Vec<MatchArm>,
    file: &File,
    snapshot: &AnalysisSnapshot,
    line_index: &LineIndex,
    type_map: &TokenTypeMap,
    modifier_map: &TokenModifierMap,
    builder: &mut SemanticTokensBuilder,
)
    requires
        walk_modifiers_fit(modifier_map.legend()),
        receive_arms_ok(arms@, source_bytes(*file)),
    ensures
        final(builder)@ == old(builder)@ + mark_tokens(
            line_index.text(),
            receive_arms_marks(arms@, *file, *snapshot, type_map.legend(), modifier_map.legend()),
        ),
    decreases arms@,
{
    let ghost tys = type_map.legend();
    let ghost mods = modifier_map.legend();
    let ghost lt = line_index.text();
    let ghost start = builder@;
    proof {
        lemma_mark_tokens_empty(line_index.text());
    }
    let mut i: usize = 0;
    while i < arms.len()
        invariant
            i <= arms@.len(),
            walk_modifiers_fit(modifier_map.legend()),
            receive_arms_ok(arms@, source_bytes(*file)),
            builder@ == start + mark_tokens(lt, receive_arms_marks(arms@.take(i as int), *file, *snapshot, tys, mods)),
            tys == type_map.legend(),
            mods == modifier_map.legend(),
            lt == line_index.text(),
        decreases arms@.len() - i,
    {
        proof {
            assert(decreases_to!(arms@ => arms@[i as int]));
            assert(arms@.take(i + 1).drop_last() =~= arms@.take(i as int));
            assert(arms@.take(i + 1).last() == arms@[i as int]);
            lemma_receive_arms_ok_at(arms@, source_bytes(*file), i as int);
            assert(receive_arms_marks(arms@.take(i + 1), *file, *snapshot, tys, mods)
                == receive_arms_marks(arms@.take(i as int), *file, *snapshot, tys, mods) + expr_marks(
                *arms@[i as int].expression,
                *file,
                *snapshot,
                tys,
                mods,
            )) by {
                reveal(expr_marks);
            }
        }
        emit_tokens(&arms[i].expression, file, snapshot, line_index, type_map, modifier_map, builder);
        proof {
            lemma_mark_tokens_concat(
                lt,
                receive_arms_marks(arms@.take(i as int), *file, *snapshot, tys, mods),
                expr_marks(*arms@[i as int].expression, *file, *snapshot, tys, mods),
            );
        }
        i = i + 1;
    }
    assert(arms@.take(i as int) =~= arms@);
}

/// Highlights the bodies of the arms of a select.
fn emit_select_arms(
    arms: &Vec<SelectArm>,
    file: &File,
    snapshot: &AnalysisSnapshot,
    line_index: &LineIndex,
    type_map: &TokenTypeMap,
    modifier_map: &TokenModifierMap,
    builder: &mut SemanticTokensBuilder,
)
    requires
        walk_modifiers_fit(modifier_map.legend()),
        select_arms_ok(arms@, source_bytes(*file)),
    ensures
        final(builder)@ == old(builder)@ + mark_tokens(
            line_index.text(),
            select_arms_marks(arms@, *file, *snapshot, type_map.legend(), modifier_map.legend()),
        ),
    decreases arms@,
{
    let ghost tys = type_map.legend();
    let ghost mods = modifier_map.legend();
    let ghost lt = line_index.text();
    let ghost start = builder@;
    proof {
        lemma_mark_tokens_empty(line_index.text());
    }
    let mut i: usize = 0;
    while i < arms.len()
        invariant
            i <= arms@.len(),
            walk_modifiers_fit(modifier_map.legend()),
            select_arms_ok(arms@, source_bytes(*file)),
            builder@ == start + mark_tokens(lt, select_arms_marks(arms@.take(i as int), *file, *snapshot, tys, mods)),
            tys == type_map.legend(),
            mods == modifier_map.legend(),
            lt == line_index.text(),
        decreases arms@.len() - i,
    {
        proof {
            assert(decreases_to!(arms@ => arms@[i as int]));
            assert(arms@.take(i + 1).drop_last() =~= arms@.take(i as int));
            assert(arms@.take(i + 1).last() == arms@[i as int]);
            lemma_select_arms_ok_at(arms@, source_bytes(*file), i as int);
        }
        match &arms[i].pattern {
            SelectArmPattern::Receive { body } => {
                emit_tokens(body, file, snapshot, line_index, type_map, modifier_map, builder);
            },
            SelectArmPattern::Send { body } => {
                emit_tokens(body, file, snapshot, line_index, type_map, modifier_map, builder);
            },
            SelectArmPattern::MatchReceive { arms: receive_arms } => {
                emit_receive_arms(receive_arms, file, snapshot, line_index, type_map, modifier_map, builder);
            },
            SelectArmPattern::WildCard { body } => {
                emit_tokens(body, file, snapshot, line_index, type_map, modifier_map, builder);
            },
        }
        assert(select_arm_marks(arms@[i as int], *file, *snapshot, tys, mods) == match arms@[i as int].pattern {
            SelectArmPattern::Receive { body } => expr_marks(*body, *file, *snapshot, tys, mods),
            SelectArmPattern::Send { body } => expr_marks(*body, *file, *snapshot, tys, mods),
            SelectArmPattern::MatchReceive { arms } => receive_arms_marks(arms@, *file, *snapshot, tys, mods),
            SelectArmPattern::WildCard { body } => expr_marks(*body, *file, *snapshot, tys, mods),
        }) by {
            reveal(expr_marks);
        }
        assert(select_arms_marks(arms@.take(i + 1), *file, *snapshot, tys, mods) == select_arms_marks(
            arms@.take(i as int),
            *file,
            *snapshot,
            tys,
            mods,
        ) + select_arm_marks(arms@[i as int], *file, *snapshot, tys, mods)) by {
            reveal(expr_marks);
        }
        proof {
            lemma_mark_tokens_concat(
                lt,
                select_arms_marks(arms@.take(i as int), *file, *snapshot, tys, mods),
                select_arm_marks(arms@[i as int], *file, *snapshot, tys, mods),
            );
        }
        i = i + 1;
    }
    assert(arms@.take(i as int) =~= arms@);
}

/// Highlights the expressions interpolated into a format string.
fn emit_format_parts(
    parts: &Vec<FormatStringPart>,
    file: &File,
    snapshot: &AnalysisSnapshot,
    line_index: &LineIndex,
    type_map: &TokenTypeMap,
    modifier_map: &TokenModifierMap,
    builder: &mut SemanticTokensBuilder,
)
    requires
        walk_modifiers_fit(modifier_map.legend()),
        format_parts_ok(parts@, source_bytes(*file)),
    ensures
        final(builder)@ == old(builder)@ + mark_tokens(
            line_index.text(),
            format_parts_marks(parts@, *file, *snapshot, type_map.legend(), modifier_map.legend()),
        ),
    decreases parts@,
{
    let ghost tys = type_map.legend();
    let ghost mods = modifier_map.legend();
    let ghost lt = line_index.text();
    let ghost start = builder@;
    proof {
        lemma_mark_tokens_empty(line_index.text());
    }
    let mut i: usize = 0;
    while i < parts.len()
        invariant
            i <= parts@.len(),
            walk_modifiers_fit(modifier_map.legend()),
            format_parts_ok(parts@, source_bytes(*file)),
            builder@ == start + mark_tokens(lt, format_parts_marks(parts@.take(i as int), *file, *snapshot, tys, mods)),
            tys == type_map.legend(),
            mods == modifier_map.legend(),
            lt == line_index.text(),
        decreases parts@.len() - i,
    {
        proof {
            assert(decreases_to!(parts@ => parts@[i as int]));
            assert(parts@.take(i + 1).drop_last() =~= parts@.take(i as int));
            assert(parts@.take(i + 1).last() == parts@[i as int]);
            lemma_format_parts_ok_at(parts@, source_bytes(*file), i as int);
            assert(format_parts_marks(parts@.take(i + 1), *file, *snapshot, tys, mods)
                == format_parts_marks(parts@.take(i as int), *file, *snapshot, tys, mods) + match parts@[i as int] {
                FormatStringPart::Expression(x) => expr_marks(*x, *file, *snapshot, tys, mods),
                FormatStringPart::Text => Seq::empty(),
            }) by {
                reveal(expr_marks);
            }
        }
        if let FormatStringPart::Expression(part) = &parts[i] {
            emit_tokens(part, file, snapshot, line_index, type_map, modifier_map, builder);
        } else {
            proof {
                lemma_mark_tokens_empty(lt);
            }
            assert(builder@ + Seq::<AbsoluteToken>::empty() =~= builder@);
        }
        proof {
            let pm = match parts@[i as int] {
                FormatStringPart::Expression(x) => expr_marks(*x, *file, *snapshot, tys, mods),
                FormatStringPart::Text => Seq::empty(),
            };
            lemma_mark_tokens_concat(
                lt,
                format_parts_marks(parts@.take(i as int), *file, *snapshot, tys, mods),
                pm,
            );
        }
        i = i + 1;
    }
    assert(parts@.take(i as int) =~= parts@);
}

// ------------------------------------------ what the walk may assume of lists

proof fn lemma_exprs_ok_at(es: Seq<Expression>, text: Seq<u8>, i: int)
    requires
        exprs_ok(es, text),
        0 <= i < es.len(),
    ensures
        expr_ok(es[i], text),
    decreases es.len(),
{
    reveal(expr_ok);
    if i < es.len() - 1 {
        lemma_exprs_ok_at(es.drop_last(), text, i);
        assert(es.drop_last()[i] == es[i]);
    }
}

proof fn lemma_arms_ok_at(arms: Seq<MatchArm>, text: Seq<u8>, i: int)
    requires
        arms_ok(arms, text),
        0 <= i < arms.len(),
    ensures
        match arms[i].guard {
            Some(g) => expr_ok(*g, text),
            None => true,
        },
        expr_ok(*arms[i].expression, text),
    decreases arms.len(),
{
    reveal(expr_ok);
    if i < arms.len() - 1 {
        lemma_arms_ok_at(arms.drop_last(), text, i);
        assert(arms.drop_last()[i] == arms[i]);
    }
}

proof fn lemma_receive_arms_ok_at(arms: Seq<MatchArm>, text: Seq<u8>, i: int)
    requires
        receive_arms_ok(arms, text),
        0 <= i < arms.len(),
    ensures
        expr_ok(*arms[i].expression, text),
    decreases arms.len(),
{
    reveal(expr_ok);
    if i < arms.len() - 1 {
        lemma_receive_arms_ok_at(arms.drop_last(), text, i);
        assert(arms.drop_last()[i] == arms[i]);
    }
}

proof fn lemma_select_arms_ok_at(arms: Seq<SelectArm>, text: Seq<u8>, i: int)
    requires
        select_arms_ok(arms, text),
        0 <= i < arms.len(),
    ensures
        match arms[i].pattern {
            SelectArmPattern::Receive { body } => expr_ok(*body, text),
            SelectArmPattern::Send { body } => expr_ok(*body, text),
            SelectArmPattern::MatchReceive { arms } => receive_arms_ok(arms@, text),
            SelectArmPattern::WildCard { body } => expr_ok(*body, text),
        },
    decreases arms.len(),
{
    reveal(expr_ok);
    if i < arms.len() - 1 {
        lemma_select_arms_ok_at(arms.drop_last(), text, i);
        assert(arms.drop_last()[i] == arms[i]);
    }
}

proof fn lemma_format_parts_ok_at(parts: Seq<FormatStringPart>, text: Seq<u8>, i: int)
    requires
        format_parts_ok(parts, text),
        0 <= i < parts.len(),
    ensures
        match parts[i] {
            FormatStringPart::Expression(x) => expr_ok(*x, text),
            FormatStringPart::Text => true,
        },
    decreases parts.len(),
{
    reveal(expr_ok);
    if i < parts.len() - 1 {
        lemma_format_parts_ok_at(parts.drop_last(), text, i);
        assert(parts.drop_last()[i] == parts[i]);
    }
}

} // verus!

verus! {

/// The token types that the server advertises, in legend order.
pub open spec fn token_type_legend() -> Seq<TokenType> {
    seq![
        TokenType::Type,
        TokenType::Enum,
        TokenType::EnumMember,
        TokenType::Struct,
        TokenType::Interface,
        TokenType::Function,
        TokenType::Method,
        TokenType::Variable,
        TokenType::Parameter,
        TokenType::Property,
        TokenType::Namespace,
        TokenType::Keyword,
        TokenType::Comment,
        TokenType::StringLit,
        TokenType::Number,
        TokenType::Operator,
    ]
}

/// The token modifiers that the server advertises, in legend order.
pub open spec fn token_modifier_legend() -> Seq<TokenModifier> {
    seq![
        TokenModifier::Declaration,
        TokenModifier::Readonly,
        TokenModifier::Static,
        TokenModifier::Async,
        TokenModifier::Modification,
        TokenModifier::Documentation,
    ]
}

/// The token types that the server advertises, in legend order.
pub fn token_types() -> (r: Vec<TokenType>)
    ensures
        r@ == token_type_legend(),
{
    let r = vec![
        TokenType::Type,
        TokenType::Enum,
        TokenType::EnumMember,
        TokenType::Struct,
        TokenType::Interface,
        TokenType::Function,
        TokenType::Method,
        TokenType::Variable,
        TokenType::Parameter,
        TokenType::Property,
        TokenType::Namespace,
        TokenType::Keyword,
        TokenType::Comment,
        TokenType::StringLit,
        TokenType::Number,
        TokenType::Operator,
    ];
    assert(r@ =~= token_type_legend());
    r
}

/// The token modifiers that the server advertises, in legend order.
pub fn token_modifiers() -> (r: Vec<TokenModifier>)
    ensures
        r@ == token_modifier_legend(),
{
    let r = vec![
        TokenModifier::Declaration,
        TokenModifier::Readonly,
        TokenModifier::Static,
        TokenModifier::Async,
        TokenModifier::Modification,
        TokenModifier::Documentation,
    ];
    assert(r@ =~= token_modifier_legend());
    r
}

/// One mark for each comment, given as byte offset and byte length.
pub open spec fn comment_marks(
    file_id: u32,
    comments: Seq<(u32, u32)>,
    token_type: u32,
    modifiers: u32,
) -> Seq<Mark>
    decreases comments.len(),
{
    if comments.len() == 0 {
        Seq::empty()
    } else {
        let c = comments.last();
        comment_marks(file_id, comments.drop_last(), token_type, modifiers) + one(
            Span { file_id, byte_offset: c.0, byte_length: c.1, dummy: false },
            token_type,
            modifiers,
        )
    }
}

/// The marks of a whole file, as the walk requests them: those of its items
/// in order, then its comments, then its doc comments.
pub open spec fn file_marks(file: File, snap: AnalysisSnapshot) -> Seq<Mark> {
    let tys = token_type_legend();
    let mods = token_modifier_legend();
    exprs_marks(file.items@, file, snap, tys, mods) + comment_marks(
        file.id,
        snap.comments@,
        tok(tys, TokenType::Comment),
        0,
    ) + comment_marks(file.id, snap.doc_comments@, tok(tys, TokenType::Comment), doc_bits(mods))
}

/// The walk over a file does not panic: see `expr_ok`.
pub open spec fn file_ok(file: File) -> bool {
    exprs_ok(file.items@, source_bytes(file))
}

/// Highlights each comment as a comment with `modifiers`.
fn emit_comments(
    file_id: u32,
    comments: &Vec<(u32, u32)>,
    token_type: u32,
    modifiers: u32,
    line_index: &LineIndex,
    builder: &mut SemanticTokensBuilder,
)
    ensures
        final(builder)@ == old(builder)@ + mark_tokens(
            line_index.text(),
            comment_marks(file_id, comments@, token_type, modifiers),
        ),
{
    let ghost lt = line_index.text();
    let ghost start = builder@;
    proof {
        lemma_mark_tokens_empty(lt);
        assert(comments@.take(0) =~= Seq::<(u32, u32)>::empty());
    }
    let mut i: usize = 0;
    while i < comments.len()
        invariant
            i <= comments@.len(),
            lt == line_index.text(),
            builder@ == start + mark_tokens(
                lt,
                comment_marks(file_id, comments@.take(i as int), token_type, modifiers),
            ),
        decreases comments@.len() - i,
    {
        let (offset, length) = comments[i];
        let span = Span::new(file_id, offset, length);
        proof {
            assert(comments@.take(i + 1).drop_last() =~= comments@.take(i as int));
            assert(comments@.take(i + 1).last() == comments@[i as int]);
            lemma_mark_tokens_concat(
                lt,
                comment_marks(file_id, comments@.take(i as int), token_type, modifiers),
                one(span, token_type, modifiers),
            );
        }
        builder.push(line_index, &span, token_type, modifiers);
        i = i + 1;
    }
    assert(comments@.take(i as int) =~= comments@);
}

/// Computes the encoded semantic tokens of a file: those of its items, its
/// comments and its doc comments, each at the legend index of its type, put
/// in document order before they are encoded.
pub fn compute_semantic_tokens(
    file: &File,
    snapshot: &AnalysisSnapshot,
    line_index: &LineIndex,
) -> (r: SemanticTokens)
    requires
        file_ok(*file),
    ensures
        r.result_id is None,
        r.data@ == encode(sort_by_place(mark_tokens(line_index.text(), file_marks(*file, *snapshot)))),
{
    let type_map = TokenTypeMap::new(token_types());
    let modifier_map = TokenModifierMap::new(token_modifiers());
    assert(type_map.legend() =~= token_type_legend());
    assert(modifier_map.legend() =~= token_modifier_legend());
    proof {
        lemma_small_legend_fits(
            modifier_map.legend(),
            seq![TokenModifier::Readonly, TokenModifier::Static, TokenModifier::Declaration],
        );
        lemma_small_legend_fits(modifier_map.legend(), seq![TokenModifier::Declaration]);
        lemma_small_legend_fits(modifier_map.legend(), seq![TokenModifier::Documentation]);
    }
    let ghost lt = line_index.text();
    let mut builder = SemanticTokensBuilder::new();
    emit_all(&file.items, file, snapshot, line_index, &type_map, &modifier_map, &mut builder);
    let comment_type = type_map.get(TokenType::Comment);
    emit_comments(file.id, &snapshot.comments, comment_type, 0, line_index, &mut builder);
    let doc = documentation_bits(&modifier_map);
    emit_comments(file.id, &snapshot.doc_comments, comment_type, doc, line_index, &mut builder);
    proof {
        lemma_mark_tokens_concat3(
            lt,
            exprs_marks(file.items@, *file, *snapshot, token_type_legend(), token_modifier_legend()),
            comment_marks(file.id, snapshot.comments@, comment_type, 0),
            comment_marks(file.id, snapshot.doc_comments@, comment_type, doc),
        );
        assert(Seq::<AbsoluteToken>::empty() + mark_tokens(lt, file_marks(*file, *snapshot))
            =~= mark_tokens(lt, file_marks(*file, *snapshot)));
    }
    builder.build()
}

} // verus!

verus! {

// ------------------------------------------- every token indexes the legend

/// The mark's type is an index into a legend of `ntypes` types, and its
/// modifiers are none, a declaration, or a constant's bits.
pub open spec fn mark_in_legend(m: Mark, ntypes: nat, mods: Seq<TokenModifier>) -> bool {
    &&& m.token_type < ntypes
    &&& (m.modifiers == 0 || m.modifiers == decl_bits(mods) || m.modifiers == const_bits(
        mods,
    ))
}

pub open spec fn marks_in_legend(ms: Seq<Mark>, ntypes: nat, mods: Seq<TokenModifier>) -> bool {
    forall|i: int| 0 <= i < ms.len() ==> #[trigger] mark_in_legend(ms[i], ntypes, mods)
}

proof fn lemma_in_legend_concat(a: Seq<Mark>, b: Seq<Mark>, ntypes: nat, mods: Seq<TokenModifier>)
    requires
        marks_in_legend(a, ntypes, mods),
        marks_in_legend(b, ntypes, mods),
    ensures
        marks_in_legend(a + b, ntypes, mods),
{
    assert forall|i: int| 0 <= i < (a + b).len() implies #[trigger] mark_in_legend(
        (a + b)[i],
        ntypes,
        mods,
    ) by {
        if i < a.len() {
            assert((a + b)[i] == a[i]);
        } else {
            assert((a + b)[i] == b[i - a.len()]);
        }
    }
}

proof fn lemma_in_legend_concat3(
    a: Seq<Mark>,
    b: Seq<Mark>,
    c: Seq<Mark>,
    ntypes: nat,
    mods: Seq<TokenModifier>,
)
    requires
        marks_in_legend(a, ntypes, mods),
        marks_in_legend(b, ntypes, mods),
        marks_in_legend(c, ntypes, mods),
    ensures
        marks_in_legend(a + b + c, ntypes, mods),
{
    lemma_in_legend_concat(a, b, ntypes, mods);
    lemma_in_legend_concat(a + b, c, ntypes, mods);
}

proof fn lemma_in_legend_one(span: Span, t: TokenType, bits: u32, tys: Seq<TokenType>, mods: Seq<TokenModifier>)
    requires
        0 < tys.len() <= 0x1_0000_0000,
        bits == 0 || bits == decl_bits(mods) || bits == const_bits(mods),
    ensures
        marks_in_legend(one(span, tok(tys, t), bits), tys.len(), mods),
{
    lemma_type_index(tys, t);
    assert(mark_in_legend(one(span, tok(tys, t), bits)[0], tys.len(), mods));
}

/// Every type that a name can resolve to lies in the legend.
proof fn lemma_resolved_types_in_legend(tys: Seq<TokenType>, def: Definition, rt: Option<String>, member: Seq<char>, snap: AnalysisSnapshot)
    requires
        0 < tys.len() <= 0x1_0000_0000,
    ensures
        definition_token_type(def, tys) < tys.len(),
        member_token_type(rt, member, snap, tys) < tys.len(),
{
    lemma_type_index(tys, TokenType::Struct);
    lemma_type_index(tys, TokenType::Enum);
    lemma_type_index(tys, TokenType::Interface);
    lemma_type_index(tys, TokenType::Type);
    lemma_type_index(tys, TokenType::Function);
    lemma_type_index(tys, TokenType::Variable);
    lemma_type_index(tys, TokenType::Property);
    lemma_type_index(tys, TokenType::Method);
}

proof fn lemma_pattern_marks_in_legend(p: Pattern, tys: Seq<TokenType>, mods: Seq<TokenModifier>)
    requires
        0 < tys.len() <= 0x1_0000_0000,
    ensures
        marks_in_legend(pattern_marks(p, tys, mods), tys.len(), mods),
    decreases p,
{
    let n = tys.len();
    match p {
        Pattern::Identifier { span } => {
            lemma_in_legend_one(span, TokenType::Variable, decl_bits(mods), tys, mods);
        },
        Pattern::EnumVariant { fields, span } => {
            lemma_in_legend_one(span, TokenType::EnumMember, 0, tys, mods);
            lemma_patterns_marks_in_legend(fields@, tys, mods);
            lemma_in_legend_concat(one(span, tok(tys, TokenType::EnumMember), 0), patterns_marks(fields@, tys, mods), n, mods);
        },
        Pattern::Tuple { elements } => {
            lemma_patterns_marks_in_legend(elements@, tys, mods);
        },
        Pattern::Struct { fields, span } => {
            lemma_in_legend_one(span, TokenType::EnumMember, 0, tys, mods);
            lemma_field_patterns_marks_in_legend(fields@, tys, mods);
            lemma_in_legend_concat(one(span, tok(tys, TokenType::EnumMember), 0), field_patterns_marks(fields@, tys, mods), n, mods);
        },
        Pattern::AsBinding { pattern, span } => {
            lemma_in_legend_one(span, TokenType::Variable, decl_bits(mods), tys, mods);
            lemma_pattern_marks_in_legend(*pattern, tys, mods);
            lemma_in_legend_concat(one(span, tok(tys, TokenType::Variable), decl_bits(mods)), pattern_marks(*pattern, tys, mods), n, mods);
        },
        Pattern::Or { patterns } => {
            lemma_patterns_marks_in_legend(patterns@, tys, mods);
        },
        Pattern::Slice { prefix, rest } => {
            lemma_patterns_marks_in_legend(prefix@, tys, mods);
            match rest {
                RestPattern::Bind { span } => {
                    lemma_in_legend_one(span, TokenType::Variable, decl_bits(mods), tys, mods);
                    lemma_in_legend_concat(patterns_marks(prefix@, tys, mods), one(span, tok(tys, TokenType::Variable), decl_bits(mods)), n, mods);
                },
                RestPattern::Unbound => {
                    assert(patterns_marks(prefix@, tys, mods) + Seq::<Mark>::empty() =~= patterns_marks(prefix@, tys, mods));
                },
            }
        },
        _ => {},
    }
}

proof fn lemma_patterns_marks_in_legend(ps: Seq<Pattern>, tys: Seq<TokenType>, mods: Seq<TokenModifier>)
    requires
        0 < tys.len() <= 0x1_0000_0000,
    ensures
        marks_in_legend(patterns_marks(ps, tys, mods), tys.len(), mods),
    decreases ps,
{
    if ps.len() > 0 {
        lemma_patterns_marks_in_legend(ps.drop_last(), tys, mods);
        lemma_pattern_marks_in_legend(ps.last(), tys, mods);
        lemma_in_legend_concat(patterns_marks(ps.drop_last(), tys, mods), pattern_marks(ps.last(), tys, mods), tys.len(), mods);
    }
}

proof fn lemma_field_patterns_marks_in_legend(fs: Seq<FieldPattern>, tys: Seq<TokenType>, mods: Seq<TokenModifier>)
    requires
        0 < tys.len() <= 0x1_0000_0000,
    ensures
        marks_in_legend(field_patterns_marks(fs, tys, mods), tys.len(), mods),
    decreases fs,
{
    if fs.len() > 0 {
        lemma_field_patterns_marks_in_legend(fs.drop_last(), tys, mods);
        lemma_pattern_marks_in_legend(fs.last().value, tys, mods);
        lemma_in_legend_concat(field_patterns_marks(fs.drop_last(), tys, mods), pattern_marks(fs.last().value, tys, mods), tys.len(), mods);
    }
}

proof fn lemma_params_marks_in_legend(bs: Seq<Binding>, tys: Seq<TokenType>, mods: Seq<TokenModifier>)
    requires
        0 < tys.len() <= 0x1_0000_0000,
    ensures
        marks_in_legend(params_marks(bs, tys, mods), tys.len(), mods),
    decreases bs.len(),
{
    if bs.len() > 0 {
        lemma_params_marks_in_legend(bs.drop_last(), tys, mods);
        let p = bs.last().pattern;
        match p {
            Pattern::Identifier { span } => {
                lemma_in_legend_one(span, TokenType::Parameter, decl_bits(mods), tys, mods);
            },
            _ => {
                lemma_pattern_marks_in_legend(p, tys, mods);
            },
        }
        lemma_in_legend_concat(params_marks(bs.drop_last(), tys, mods), param_marks(p, tys, mods), tys.len(), mods);
    }
}

} // verus!

verus! {

/// An arbitrary definition, for lemmas that hold of every definition.
spec fn arbitrary_definition() -> Definition {
    Definition { body: DefinitionBody::Value, ty: Type::Other }
}

proof fn lemma_operator_marks_in_legend(text: Seq<u8>, from: int, to: int, file_id: u32, tys: Seq<TokenType>, mods: Seq<TokenModifier>)
    requires
        0 < tys.len() <= 0x1_0000_0000,
    ensures
        marks_in_legend(trimmed_operator_marks(text, from, to, file_id, tys), tys.len(), mods),
        marks_in_legend(range_operator_marks(text, from, to, file_id, tys), tys.len(), mods),
        marks_in_legend(propagate_operator_marks(text, from, to, file_id, tys), tys.len(), mods),
{
    lemma_type_index(tys, TokenType::Operator);
    let a = trimmed_operator_marks(text, from, to, file_id, tys);
    let b = range_operator_marks(text, from, to, file_id, tys);
    let c = propagate_operator_marks(text, from, to, file_id, tys);
    assert(a.len() > 0 ==> mark_in_legend(a[0], tys.len(), mods));
    assert(b.len() > 0 ==> mark_in_legend(b[0], tys.len(), mods));
    assert(c.len() > 0 ==> mark_in_legend(c[0], tys.len(), mods));
}

proof fn lemma_identifier_marks_in_legend(
    span: Span,
    value: String,
    qualified: Option<String>,
    binding_id: Option<u32>,
    file: File,
    snap: AnalysisSnapshot,
    tys: Seq<TokenType>,
    mods: Seq<TokenModifier>,
)
    requires
        0 < tys.len() <= 0x1_0000_0000,
    ensures
        marks_in_legend(identifier_marks(span, value, qualified, binding_id, file, snap, tys), tys.len(), mods),
{
    lemma_type_index(tys, TokenType::Parameter);
    lemma_type_index(tys, TokenType::Variable);
    let ms = identifier_marks(span, value, qualified, binding_id, file, snap, tys);
    match qualified {
        Some(q) => match snap.definitions.lookup(q@) {
            Some(def) => {
                lemma_resolved_types_in_legend(tys, def, None, Seq::empty(), snap);
            },
            None => {},
        },
        None => match binding_id {
            Some(_) => {},
            None => match snap.definitions.lookup(qualify(file.module_id@, value@)) {
                Some(def) => {
                    lemma_resolved_types_in_legend(tys, def, None, Seq::empty(), snap);
                },
                None => {},
            },
        },
    }
    assert(ms.len() > 0 ==> mark_in_legend(ms[0], tys.len(), mods));
}

/// The marks of every expression name legend types, and carry no
/// modifiers, a declaration, or a constant's bits.
pub proof fn lemma_expr_marks_in_legend(
    e: Expression,
    file: File,
    snap: AnalysisSnapshot,
    tys: Seq<TokenType>,
    mods: Seq<TokenModifier>,
)
    requires
        0 < tys.len() <= 0x1_0000_0000,
    ensures
        marks_in_legend(expr_marks(e, file, snap, tys, mods), tys.len(), mods),
    decreases e,
{
    reveal(expr_marks);
    match e.kind {
        ExpressionKind::Struct { name_span } => {
            lemma_in_legend_one(name_span, TokenType::Struct, decl_bits(mods), tys, mods);
        },
        ExpressionKind::Enum { name_span } => {
            lemma_in_legend_one(name_span, TokenType::Enum, decl_bits(mods), tys, mods);
        },
        ExpressionKind::ValueEnum { name_span } => {
            lemma_in_legend_one(name_span, TokenType::Enum, decl_bits(mods), tys, mods);
        },
        ExpressionKind::Interface { name_span } => {
            lemma_in_legend_one(name_span, TokenType::Interface, decl_bits(mods), tys, mods);
        },
        ExpressionKind::TypeAlias { name_span } => {
            lemma_in_legend_one(name_span, TokenType::Type, decl_bits(mods), tys, mods);
        },
        ExpressionKind::Function { name_span, params, body } => {
            lemma_in_legend_one(name_span, TokenType::Function, decl_bits(mods), tys, mods);
            lemma_params_marks_in_legend(params@, tys, mods);
            lemma_expr_marks_in_legend(*body, file, snap, tys, mods);
            lemma_in_legend_concat3(one(name_span, tok(tys, TokenType::Function), decl_bits(mods)), params_marks(params@, tys, mods), expr_marks(*body, file, snap, tys, mods), tys.len(), mods);
        },
        ExpressionKind::ImplBlock { methods } => {
            lemma_methods_marks_in_legend(methods@, file, snap, tys, mods);
        },
        ExpressionKind::Const { identifier_span } => {
            lemma_in_legend_one(identifier_span, TokenType::Variable, const_bits(mods), tys, mods);
        },
        ExpressionKind::VariableDeclaration { name_span } => {
            lemma_in_legend_one(name_span, TokenType::Variable, decl_bits(mods), tys, mods);
        },
        ExpressionKind::Let { binding, value } => {
            lemma_pattern_marks_in_legend(binding.pattern, tys, mods);
            lemma_expr_marks_in_legend(*value, file, snap, tys, mods);
            lemma_in_legend_concat(pattern_marks(binding.pattern, tys, mods), expr_marks(*value, file, snap, tys, mods), tys.len(), mods);
        },
        ExpressionKind::For { binding, iterable, body } => {
            lemma_pattern_marks_in_legend(binding.pattern, tys, mods);
            lemma_expr_marks_in_legend(*iterable, file, snap, tys, mods);
            lemma_expr_marks_in_legend(*body, file, snap, tys, mods);
            lemma_in_legend_concat3(pattern_marks(binding.pattern, tys, mods), expr_marks(*iterable, file, snap, tys, mods), expr_marks(*body, file, snap, tys, mods), tys.len(), mods);
        },
        ExpressionKind::Lambda { params, body } => {
            lemma_params_marks_in_legend(params@, tys, mods);
            lemma_expr_marks_in_legend(*body, file, snap, tys, mods);
            lemma_in_legend_concat(params_marks(params@, tys, mods), expr_marks(*body, file, snap, tys, mods), tys.len(), mods);
        },
        ExpressionKind::Identifier { value, qualified, binding_id } => {
            lemma_identifier_marks_in_legend(e.span, value, qualified, binding_id, file, snap, tys, mods);
        },
        ExpressionKind::DotAccess { expression, member, receiver_type } => {
            lemma_expr_marks_in_legend(*expression, file, snap, tys, mods);
            lemma_resolved_types_in_legend(tys, arbitrary_definition(), receiver_type, member@, snap);
            let m = byte_len_u32(member);
            let tail = if e.span.byte_length > m { one(Span { file_id: e.span.file_id, byte_offset: (span_end(e.span) - m) as u32, byte_length: m, dummy: false }, member_token_type(receiver_type, member@, snap, tys), 0) } else { Seq::empty() };
            assert(marks_in_legend(tail, tys.len(), mods)) by { if e.span.byte_length > m { assert(mark_in_legend(tail[0], tys.len(), mods)); } }
            lemma_in_legend_concat(expr_marks(*expression, file, snap, tys, mods), tail, tys.len(), mods);
        },
        ExpressionKind::Match { arms } => {
            lemma_arms_marks_in_legend(arms@, file, snap, tys, mods);
        },
        ExpressionKind::IfLet { pattern, scrutinee, consequence, alternative } => {
            lemma_pattern_marks_in_legend(pattern, tys, mods);
            lemma_expr_marks_in_legend(*scrutinee, file, snap, tys, mods);
            lemma_expr_marks_in_legend(*consequence, file, snap, tys, mods);
            lemma_expr_marks_in_legend(*alternative, file, snap, tys, mods);
            lemma_in_legend_concat3(pattern_marks(pattern, tys, mods), expr_marks(*scrutinee, file, snap, tys, mods), expr_marks(*consequence, file, snap, tys, mods), tys.len(), mods);
            lemma_in_legend_concat(pattern_marks(pattern, tys, mods) + expr_marks(*scrutinee, file, snap, tys, mods) + expr_marks(*consequence, file, snap, tys, mods), expr_marks(*alternative, file, snap, tys, mods), tys.len(), mods);
        },
        ExpressionKind::WhileLet { pattern, scrutinee, body } => {
            lemma_pattern_marks_in_legend(pattern, tys, mods);
            lemma_expr_marks_in_legend(*scrutinee, file, snap, tys, mods);
            lemma_expr_marks_in_legend(*body, file, snap, tys, mods);
            lemma_in_legend_concat3(pattern_marks(pattern, tys, mods), expr_marks(*scrutinee, file, snap, tys, mods), expr_marks(*body, file, snap, tys, mods), tys.len(), mods);
        },
        ExpressionKind::StructCall { name_span, variant, field_values } => {
            let ty = if variant { TokenType::EnumMember } else { TokenType::Function };
            lemma_in_legend_one(name_span, ty, 0, tys, mods);
            lemma_exprs_marks_in_legend(field_values@, file, snap, tys, mods);
            lemma_in_legend_concat(one(name_span, tok(tys, ty), 0), exprs_marks(field_values@, file, snap, tys, mods), tys.len(), mods);
        },
        ExpressionKind::Binary { left, right } => {
            lemma_expr_marks_in_legend(*left, file, snap, tys, mods);
            lemma_expr_marks_in_legend(*right, file, snap, tys, mods);
            lemma_operator_marks_in_legend(source_bytes(file), span_end(left.span), right.span.byte_offset as int, e.span.file_id, tys, mods);
            lemma_in_legend_concat3(expr_marks(*left, file, snap, tys, mods), trimmed_operator_marks(source_bytes(file), span_end(left.span), right.span.byte_offset as int, e.span.file_id, tys), expr_marks(*right, file, snap, tys, mods), tys.len(), mods);
        },
        ExpressionKind::Unary { expression } => {
            lemma_expr_marks_in_legend(*expression, file, snap, tys, mods);
            lemma_operator_marks_in_legend(source_bytes(file), e.span.byte_offset as int, expression.span.byte_offset as int, e.span.file_id, tys, mods);
            lemma_in_legend_concat(trimmed_operator_marks(source_bytes(file), e.span.byte_offset as int, expression.span.byte_offset as int, e.span.file_id, tys), expr_marks(*expression, file, snap, tys, mods), tys.len(), mods);
        },
        ExpressionKind::Block { items } => {
            lemma_exprs_marks_in_legend(items@, file, snap, tys, mods);
        },
        ExpressionKind::TryBlock { items } => {
            lemma_exprs_marks_in_legend(items@, file, snap, tys, mods);
        },
        ExpressionKind::RecoverBlock { items } => {
            lemma_exprs_marks_in_legend(items@, file, snap, tys, mods);
        },
        ExpressionKind::Tuple { elements } => {
            lemma_exprs_marks_in_legend(elements@, file, snap, tys, mods);
        },
        ExpressionKind::Call { expression, args } => {
            lemma_expr_marks_in_legend(*expression, file, snap, tys, mods);
            lemma_exprs_marks_in_legend(args@, file, snap, tys, mods);
            lemma_in_legend_concat(expr_marks(*expression, file, snap, tys, mods), exprs_marks(args@, file, snap, tys, mods), tys.len(), mods);
        },
        ExpressionKind::If { condition, consequence, alternative } => {
            lemma_expr_marks_in_legend(*condition, file, snap, tys, mods);
            lemma_expr_marks_in_legend(*consequence, file, snap, tys, mods);
            lemma_expr_marks_in_legend(*alternative, file, snap, tys, mods);
            lemma_in_legend_concat3(expr_marks(*condition, file, snap, tys, mods), expr_marks(*consequence, file, snap, tys, mods), expr_marks(*alternative, file, snap, tys, mods), tys.len(), mods);
        },
        ExpressionKind::While { condition, body } => {
            lemma_expr_marks_in_legend(*condition, file, snap, tys, mods);
            lemma_expr_marks_in_legend(*body, file, snap, tys, mods);
            lemma_in_legend_concat(expr_marks(*condition, file, snap, tys, mods), expr_marks(*body, file, snap, tys, mods), tys.len(), mods);
        },
        ExpressionKind::Return { expression } => {
            lemma_expr_marks_in_legend(*expression, file, snap, tys, mods);
        },
        ExpressionKind::Defer { expression } => {
            lemma_expr_marks_in_legend(*expression, file, snap, tys, mods);
        },
        ExpressionKind::Task { expression } => {
            lemma_expr_marks_in_legend(*expression, file, snap, tys, mods);
        },
        ExpressionKind::Paren { expression } => {
            lemma_expr_marks_in_legend(*expression, file, snap, tys, mods);
        },
        ExpressionKind::Cast { expression } => {
            lemma_expr_marks_in_legend(*expression, file, snap, tys, mods);
        },
        ExpressionKind::Reference { expression } => {
            lemma_expr_marks_in_legend(*expression, file, snap, tys, mods);
        },
        ExpressionKind::Loop { body } => {
            lemma_expr_marks_in_legend(*body, file, snap, tys, mods);
        },
        ExpressionKind::Select { arms } => {
            lemma_select_arms_marks_in_legend(arms@, file, snap, tys, mods);
        },
        ExpressionKind::Break { value } => {
            match value { Some(v) => { lemma_expr_marks_in_legend(*v, file, snap, tys, mods); } None => {} }
        },
        ExpressionKind::ModuleImport { name_span, alias } => {
            let am = match alias {
                Some(ImportAlias::Named { span }) => one(span, tok(tys, TokenType::Namespace), decl_bits(mods)),
                Some(ImportAlias::Blank { span }) => one(span, tok(tys, TokenType::Namespace), decl_bits(mods)),
                None => Seq::<Mark>::empty(),
            };
            lemma_in_legend_one(name_span, TokenType::Namespace, 0, tys, mods);
            match alias { Some(ImportAlias::Named { span }) => { lemma_in_legend_one(span, TokenType::Namespace, decl_bits(mods), tys, mods); } Some(ImportAlias::Blank { span }) => { lemma_in_legend_one(span, TokenType::Namespace, decl_bits(mods), tys, mods); } None => {} }
            lemma_in_legend_concat(one(name_span, tok(tys, TokenType::Namespace), 0), am, tys.len(), mods);
        },
        ExpressionKind::Range { start, end } => {
            let from = match start { Some(s) => span_end(s.span), None => e.span.byte_offset as int };
            let to = match end { Some(x) => x.span.byte_offset as int, None => span_end(e.span) };
            let sm = match start { Some(s) => expr_marks(*s, file, snap, tys, mods), None => Seq::empty() };
            let xm = match end { Some(x) => expr_marks(*x, file, snap, tys, mods), None => Seq::empty() };
            match start { Some(s) => { lemma_expr_marks_in_legend(*s, file, snap, tys, mods); } None => {} }
            match end { Some(x) => { lemma_expr_marks_in_legend(*x, file, snap, tys, mods); } None => {} }
            lemma_operator_marks_in_legend(source_bytes(file), from, to, e.span.file_id, tys, mods);
            lemma_in_legend_concat3(sm, range_operator_marks(source_bytes(file), from, to, e.span.file_id, tys), xm, tys.len(), mods);
        },
        ExpressionKind::IndexedAccess { expression, index } => {
            lemma_expr_marks_in_legend(*expression, file, snap, tys, mods);
            lemma_expr_marks_in_legend(*index, file, snap, tys, mods);
            lemma_in_legend_concat(expr_marks(*expression, file, snap, tys, mods), expr_marks(*index, file, snap, tys, mods), tys.len(), mods);
        },
        ExpressionKind::Propagate { expression } => {
            lemma_expr_marks_in_legend(*expression, file, snap, tys, mods);
            lemma_operator_marks_in_legend(source_bytes(file), span_end(expression.span), span_end(e.span), e.span.file_id, tys, mods);
            lemma_in_legend_concat(expr_marks(*expression, file, snap, tys, mods), propagate_operator_marks(source_bytes(file), span_end(expression.span), span_end(e.span), e.span.file_id, tys), tys.len(), mods);
        },
        ExpressionKind::Assignment { target, value } => {
            lemma_expr_marks_in_legend(*target, file, snap, tys, mods);
            lemma_expr_marks_in_legend(*value, file, snap, tys, mods);
            lemma_operator_marks_in_legend(source_bytes(file), span_end(target.span), value.span.byte_offset as int, e.span.file_id, tys, mods);
            lemma_in_legend_concat3(expr_marks(*target, file, snap, tys, mods), trimmed_operator_marks(source_bytes(file), span_end(target.span), value.span.byte_offset as int, e.span.file_id, tys), expr_marks(*value, file, snap, tys, mods), tys.len(), mods);
        },
        ExpressionKind::Literal { literal } => {
            match literal {
                Literal::FormatString(parts) => {
                    lemma_format_parts_marks_in_legend(parts@, file, snap, tys, mods);
                    lemma_in_legend_one(e.span, TokenType::StringLit, 0, tys, mods);
                    lemma_in_legend_concat(one(e.span, tok(tys, TokenType::StringLit), 0), format_parts_marks(parts@, file, snap, tys, mods), tys.len(), mods);
                },
                Literal::Slice(elements) => {
                    lemma_exprs_marks_in_legend(elements@, file, snap, tys, mods);
                },
                Literal::Integer | Literal::Float | Literal::Imaginary => {
                    lemma_in_legend_one(e.span, TokenType::Number, 0, tys, mods);
                },
                Literal::Str | Literal::Char => {
                    lemma_in_legend_one(e.span, TokenType::StringLit, 0, tys, mods);
                },
                Literal::Boolean => {
                    lemma_in_legend_one(e.span, TokenType::Keyword, 0, tys, mods);
                },
            }
        },
        _ => {},
    }
}

/// `lemma_expr_marks_in_legend`, for each expression of a sequence.
pub proof fn lemma_exprs_marks_in_legend(
    es: Seq<Expression>,
    file: File,
    snap: AnalysisSnapshot,
    tys: Seq<TokenType>,
    mods: Seq<TokenModifier>,
)
    requires
        0 < tys.len() <= 0x1_0000_0000,
    ensures
        marks_in_legend(exprs_marks(es, file, snap, tys, mods), tys.len(), mods),
    decreases es,
{
    reveal(expr_marks);
    if es.len() > 0 {
        lemma_exprs_marks_in_legend(es.drop_last(), file, snap, tys, mods);
        lemma_expr_marks_in_legend(es.last(), file, snap, tys, mods);
        lemma_in_legend_concat(exprs_marks(es.drop_last(), file, snap, tys, mods), expr_marks(es.last(), file, snap, tys, mods), tys.len(), mods);
    }
}

/// `lemma_expr_marks_in_legend`, for the methods of an impl block.
pub proof fn lemma_methods_marks_in_legend(
    ms: Seq<Expression>,
    file: File,
    snap: AnalysisSnapshot,
    tys: Seq<TokenType>,
    mods: Seq<TokenModifier>,
)
    requires
        0 < tys.len() <= 0x1_0000_0000,
    ensures
        marks_in_legend(methods_marks(ms, file, snap, tys, mods), tys.len(), mods),
    decreases ms,
{
    if ms.len() > 0 {
        lemma_methods_marks_in_legend(ms.drop_last(), file, snap, tys, mods);
        let last = ms.last();
        assert(decreases_to!(ms => last));
        assert(methods_marks(ms, file, snap, tys, mods) == methods_marks(ms.drop_last(), file, snap, tys, mods) + match last.kind {
            ExpressionKind::Function { name_span, params, body } => one(
                name_span,
                tok(tys, TokenType::Method),
                decl_bits(mods),
            ) + params_marks(params@, tys, mods) + expr_marks(*body, file, snap, tys, mods),
            _ => expr_marks(last, file, snap, tys, mods),
        }) by {
            reveal(expr_marks);
        }
        match last.kind {
            ExpressionKind::Function { name_span, params, body } => {
                lemma_in_legend_one(name_span, TokenType::Method, decl_bits(mods), tys, mods);
                lemma_params_marks_in_legend(params@, tys, mods);
                lemma_expr_marks_in_legend(*body, file, snap, tys, mods);
                lemma_in_legend_concat3(one(name_span, tok(tys, TokenType::Method), decl_bits(mods)), params_marks(params@, tys, mods), expr_marks(*body, file, snap, tys, mods), tys.len(), mods);
                lemma_in_legend_concat(methods_marks(ms.drop_last(), file, snap, tys, mods), one(name_span, tok(tys, TokenType::Method), decl_bits(mods)) + params_marks(params@, tys, mods) + expr_marks(*body, file, snap, tys, mods), tys.len(), mods);
            },
            _ => {
                lemma_expr_marks_in_legend(last, file, snap, tys, mods);
                lemma_in_legend_concat(methods_marks(ms.drop_last(), file, snap, tys, mods), expr_marks(last, file, snap, tys, mods), tys.len(), mods);
            },
        }
    }
}

proof fn lemma_arms_marks_in_legend(
    arms: Seq<MatchArm>,
    file: File,
    snap: AnalysisSnapshot,
    tys: Seq<TokenType>,
    mods: Seq<TokenModifier>,
)
    requires
        0 < tys.len() <= 0x1_0000_0000,
    ensures
        marks_in_legend(arms_marks(arms, file, snap, tys, mods), tys.len(), mods),
    decreases arms,
{
    reveal(expr_marks);
    if arms.len() > 0 {
        let a = arms.last();
        lemma_arms_marks_in_legend(arms.drop_last(), file, snap, tys, mods);
        lemma_pattern_marks_in_legend(a.pattern, tys, mods);
        let gm = match a.guard {
            Some(g) => expr_marks(*g, file, snap, tys, mods),
            None => Seq::empty(),
        };
        match a.guard {
            Some(g) => {
                lemma_expr_marks_in_legend(*g, file, snap, tys, mods);
            },
            None => {},
        }
        lemma_expr_marks_in_legend(*a.expression, file, snap, tys, mods);
        lemma_in_legend_concat3(pattern_marks(a.pattern, tys, mods), gm, expr_marks(*a.expression, file, snap, tys, mods), tys.len(), mods);
        lemma_in_legend_concat(arms_marks(arms.drop_last(), file, snap, tys, mods), arm_marks(a, file, snap, tys, mods), tys.len(), mods);
    }
}

proof fn lemma_receive_arms_marks_in_legend(
    arms: Seq<MatchArm>,
    file: File,
    snap: AnalysisSnapshot,
    tys: Seq<TokenType>,
    mods: Seq<TokenModifier>,
)
    requires
        0 < tys.len() <= 0x1_0000_0000,
    ensures
        marks_in_legend(receive_arms_marks(arms, file, snap, tys, mods), tys.len(), mods),
    decreases arms,
{
    reveal(expr_marks);
    if arms.len() > 0 {
        lemma_receive_arms_marks_in_legend(arms.drop_last(), file, snap, tys, mods);
        lemma_expr_marks_in_legend(*arms.last().expression, file, snap, tys, mods);
        lemma_in_legend_concat(receive_arms_marks(arms.drop_last(), file, snap, tys, mods), expr_marks(*arms.last().expression, file, snap, tys, mods), tys.len(), mods);
    }
}

proof fn lemma_select_arms_marks_in_legend(
    arms: Seq<SelectArm>,
    file: File,
    snap: AnalysisSnapshot,
    tys: Seq<TokenType>,
    mods: Seq<TokenModifier>,
)
    requires
        0 < tys.len() <= 0x1_0000_0000,
    ensures
        marks_in_legend(select_arms_marks(arms, file, snap, tys, mods), tys.len(), mods),
    decreases arms,
{
    reveal(expr_marks);
    if arms.len() > 0 {
        lemma_select_arms_marks_in_legend(arms.drop_last(), file, snap, tys, mods);
        match arms.last().pattern {
            SelectArmPattern::Receive { body } => {
                lemma_expr_marks_in_legend(*body, file, snap, tys, mods);
            },
            SelectArmPattern::Send { body } => {
                lemma_expr_marks_in_legend(*body, file, snap, tys, mods);
            },
            SelectArmPattern::MatchReceive { arms } => {
                lemma_receive_arms_marks_in_legend(arms@, file, snap, tys, mods);
            },
            SelectArmPattern::WildCard { body } => {
                lemma_expr_marks_in_legend(*body, file, snap, tys, mods);
            },
        }
        lemma_in_legend_concat(select_arms_marks(arms.drop_last(), file, snap, tys, mods), select_arm_marks(arms.last(), file, snap, tys, mods), tys.len(), mods);
    }
}

proof fn lemma_format_parts_marks_in_legend(
    parts: Seq<FormatStringPart>,
    file: File,
    snap: AnalysisSnapshot,
    tys: Seq<TokenType>,
    mods: Seq<TokenModifier>,
)
    requires
        0 < tys.len() <= 0x1_0000_0000,
    ensures
        marks_in_legend(format_parts_marks(parts, file, snap, tys, mods), tys.len(), mods),
    decreases parts,
{
    reveal(expr_marks);
    if parts.len() > 0 {
        lemma_format_parts_marks_in_legend(parts.drop_last(), file, snap, tys, mods);
        let pm = match parts.last() {
            FormatStringPart::Expression(x) => expr_marks(*x, file, snap, tys, mods),
            FormatStringPart::Text => Seq::empty(),
        };
        match parts.last() {
            FormatStringPart::Expression(x) => {
                lemma_expr_marks_in_legend(*x, file, snap, tys, mods);
            },
            FormatStringPart::Text => {},
        }
        lemma_in_legend_concat(format_parts_marks(parts.drop_last(), file, snap, tys, mods), pm, tys.len(), mods);
    }
}

} // verus!

verus! {

proof fn lemma_comment_marks(file_id: u32, cs: Seq<(u32, u32)>, t: u32, m: u32)
    ensures
        forall|i: int|
            0 <= i < comment_marks(file_id, cs, t, m).len() ==> #[trigger] comment_marks(
                file_id,
                cs,
                t,
                m,
            )[i].token_type == t && comment_marks(file_id, cs, t, m)[i].modifiers == m,
    decreases cs.len(),
{
    if cs.len() > 0 {
        lemma_comment_marks(file_id, cs.drop_last(), t, m);
        let prev = comment_marks(file_id, cs.drop_last(), t, m);
        let c = cs.last();
        let tail = one(Span { file_id, byte_offset: c.0, byte_length: c.1, dummy: false }, t, m);
        assert forall|i: int| 0 <= i < (prev + tail).len() implies #[trigger] (prev + tail)[i].token_type
            == t && (prev + tail)[i].modifiers == m by {
            if i < prev.len() {
                assert((prev + tail)[i] == prev[i]);
            }
        }
    }
}

/// The modifier bitsets over the advertised legend: a declaration sets bit
/// 0, a constant bits 0, 1 and 2, documentation bit 5.
pub proof fn lemma_legend_bits()
    ensures
        decl_bits(token_modifier_legend()) == 1,
        const_bits(token_modifier_legend()) == 7,
        doc_bits(token_modifier_legend()) == 32,
{
    let l = token_modifier_legend();
    lemma_first_index_of(l, TokenModifier::Declaration);
    lemma_first_index_of(l, TokenModifier::Readonly);
    lemma_first_index_of(l, TokenModifier::Static);
    lemma_first_index_of(l, TokenModifier::Documentation);
    assert(l[0] == TokenModifier::Declaration);
    assert(l[1] == TokenModifier::Readonly);
    assert(l[2] == TokenModifier::Static);
    assert(l[5] == TokenModifier::Documentation);
    assert(first_index_of(l, TokenModifier::Declaration) == Some(0int));
    assert(first_index_of(l, TokenModifier::Readonly) == Some(1int));
    assert(first_index_of(l, TokenModifier::Static) == Some(2int));
    assert(first_index_of(l, TokenModifier::Documentation) == Some(5int));
    let d = seq![TokenModifier::Declaration];
    let r = seq![TokenModifier::Readonly, TokenModifier::Static, TokenModifier::Declaration];
    let o = seq![TokenModifier::Documentation];
    assert(d.drop_last() =~= Seq::<TokenModifier>::empty());
    assert(r.drop_last() =~= seq![TokenModifier::Readonly, TokenModifier::Static]);
    assert(r.drop_last().drop_last() =~= seq![TokenModifier::Readonly]);
    assert(r.drop_last().drop_last().drop_last() =~= Seq::<TokenModifier>::empty());
    assert(o.drop_last() =~= Seq::<TokenModifier>::empty());
    assert(modifier_bits(l, Seq::<TokenModifier>::empty()) == 0);
    assert(modifier_bits(l, d) == modifier_bits(l, d.drop_last()) | modifier_bit(l, d.last()));
    assert(modifier_bits(l, r.drop_last().drop_last()) == modifier_bits(
        l,
        r.drop_last().drop_last().drop_last(),
    ) | modifier_bit(l, r.drop_last().drop_last().last()));
    assert(modifier_bits(l, r.drop_last()) == modifier_bits(l, r.drop_last().drop_last())
        | modifier_bit(l, r.drop_last().last()));
    assert(modifier_bits(l, r) == modifier_bits(l, r.drop_last()) | modifier_bit(l, r.last()));
    assert(modifier_bits(l, o) == modifier_bits(l, o.drop_last()) | modifier_bit(l, o.last()));
    assert(modifier_bit(l, TokenModifier::Declaration) == 1u32 << 0u32);
    assert(modifier_bit(l, TokenModifier::Readonly) == 1u32 << 1u32);
    assert(modifier_bit(l, TokenModifier::Static) == 1u32 << 2u32);
    assert(modifier_bit(l, TokenModifier::Documentation) == 1u32 << 5u32);
    assert(0u32 | (1u32 << 0u32) == 1) by (bit_vector);
    assert(((0u32 | (1u32 << 1u32)) | (1u32 << 2u32)) | (1u32 << 0u32) == 7) by (bit_vector);
    assert(0u32 | (1u32 << 5u32) == 32) by (bit_vector);
}

/// Every token of a file names a type of the advertised legend, and carries
/// no modifier (0), a declaration (1), a constant's bits (7) or
/// documentation (32).
pub proof fn lemma_file_tokens_in_legend(file: File, snap: AnalysisSnapshot, text: Seq<u8>)
    ensures
        forall|i: int|
            0 <= i < encode(sort_by_place(mark_tokens(text, file_marks(file, snap)))).len() ==> {
                let t = #[trigger] encode(sort_by_place(mark_tokens(text, file_marks(file, snap))))[i];
                &&& t.token_type < token_type_legend().len()
                &&& (t.token_modifiers_bitset == 0 || t.token_modifiers_bitset == 1
                    || t.token_modifiers_bitset == 7 || t.token_modifiers_bitset == 32)
            },
{
    let tys = token_type_legend();
    let mods = token_modifier_legend();
    lemma_legend_bits();
    lemma_type_index(tys, TokenType::Comment);
    assert(tys[12] == TokenType::Comment);
    let items = exprs_marks(file.items@, file, snap, tys, mods);
    let ct = tok(tys, TokenType::Comment);
    let cm = comment_marks(file.id, snap.comments@, ct, 0);
    let dm = comment_marks(file.id, snap.doc_comments@, ct, doc_bits(mods));
    lemma_exprs_marks_in_legend(file.items@, file, snap, tys, mods);
    lemma_comment_marks(file.id, snap.comments@, ct, 0);
    lemma_comment_marks(file.id, snap.doc_comments@, ct, doc_bits(mods));
    let ms = file_marks(file, snap);
    assert(ms == items + cm + dm);
    assert forall|i: int| 0 <= i < ms.len() implies #[trigger] ms[i].token_type < tys.len() && (
    ms[i].modifiers == 0 || ms[i].modifiers == 1 || ms[i].modifiers == 7 || ms[i].modifiers == 32) by {
        if i < items.len() {
            assert(ms[i] == items[i]);
            assert(mark_in_legend(items[i], tys.len(), mods));
        } else if i < items.len() + cm.len() {
            assert(ms[i] == cm[i - items.len()]);
        } else {
            assert(ms[i] == dm[i - items.len() - cm.len()]);
        }
    }
    let toks = mark_tokens(text, ms);
    let sorted = sort_by_place(toks);
    lemma_mark_tokens_from_marks(text, ms);
    lemma_sort_by_place(toks);
    lemma_encode_keeps_tokens(sorted);
    assert forall|i: int| 0 <= i < encode(sorted).len() implies {
        let t = #[trigger] encode(sorted)[i];
        &&& t.token_type < tys.len()
        &&& (t.token_modifiers_bitset == 0 || t.token_modifiers_bitset == 1
            || t.token_modifiers_bitset == 7 || t.token_modifiers_bitset == 32)
    } by {
        broadcast use vstd::seq_lib::group_to_multiset_ensures;
        assert(encode(sorted)[i].token_type == sorted[i].token_type);
        let x = sorted[i];
        assert(sorted.contains(x));
        assert(toks.to_multiset().count(x) > 0);
        assert(toks.contains(x));
        let j = choose|j: int| 0 <= j < toks.len() && toks[j] == x;
        let k = choose|k: int|
            0 <= k < ms.len() && ms[k].token_type == #[trigger] toks[j].token_type
                && ms[k].modifiers == toks[j].token_modifiers_bitset;
        assert(ms[k].token_type < tys.len());
    }
}

/// The tokens of a file decode to the places of the spans they were made
/// from, in document order, each token of the walk once.
pub proof fn lemma_file_tokens_decode(file: File, snap: AnalysisSnapshot, text: Seq<u8>)
    ensures
        decode(encode(sort_by_place(mark_tokens(text, file_marks(file, snap))))) == sort_by_place(
            mark_tokens(text, file_marks(file, snap)),
        ),
        in_document_order(sort_by_place(mark_tokens(text, file_marks(file, snap)))),
        sort_by_place(mark_tokens(text, file_marks(file, snap))).to_multiset() == mark_tokens(
            text,
            file_marks(file, snap),
        ).to_multiset(),
{
    lemma_build_decodes(mark_tokens(text, file_marks(file, snap)));
}

} // verus!

verus! {

// ----------------------------------------------- checking before the walk

/// Whether `&text[..i]` may cut the text at `i`.
fn char_boundary(text: &[u8], i: u64) -> (r: bool)
    ensures
        r == is_char_boundary(text@, i as int),
{
    if i == 0 || i == text.len() as u64 {
        true
    } else if i < text.len() as u64 {
        let b = text[i as usize];
        !(0x80u8 <= b && b < 0xC0u8)
    } else {
        false
    }
}

/// Whether `&text[from..to]` is defined.
fn slice_valid(text: &[u8], from: u64, to: u64) -> (r: bool)
    ensures
        r == slice_ok(text@, from as int, to as int),
{
    from <= to && to <= text.len() as u64 && char_boundary(text, from) && char_boundary(text, to)
}

/// Whether the walk over `e` stays within 32-bit offsets and cuts `text`
/// only at char boundaries.
pub fn expr_walk_ok(e: &Expression, text: &[u8]) -> (r: bool)
    ensures
        r == expr_ok(*e, text@),
    decreases e,
{
    let ghost t = text@;
    let span = e.span;
    let end = span.byte_offset as u64 + span.byte_length as u64;
    match &e.kind {
        ExpressionKind::Function { body, .. } => {
            proof {
                assert(expr_ok(*e, t) == (expr_ok(**body, t))) by {
                    reveal(expr_ok);
                }
            }
            expr_walk_ok(body, text)
        },
        ExpressionKind::ImplBlock { methods } => {
            proof {
                assert(expr_ok(*e, t) == (exprs_ok(methods@, t))) by {
                    reveal(expr_ok);
                }
            }
            exprs_walk_ok(methods, text)
        },
        ExpressionKind::Let { value, .. } => {
            proof {
                assert(expr_ok(*e, t) == (expr_ok(**value, t))) by {
                    reveal(expr_ok);
                }
            }
            expr_walk_ok(value, text)
        },
        ExpressionKind::For { iterable, body, .. } => {
            proof {
                assert(expr_ok(*e, t) == (expr_ok(**iterable, t) && expr_ok(**body, t))) by {
                    reveal(expr_ok);
                }
            }
            let a = expr_walk_ok(iterable, text);
            let b = expr_walk_ok(body, text);
            a && b
        },
        ExpressionKind::Lambda { body, .. } => {
            proof {
                assert(expr_ok(*e, t) == (expr_ok(**body, t))) by {
                    reveal(expr_ok);
                }
            }
            expr_walk_ok(body, text)
        },
        ExpressionKind::DotAccess { expression, member, .. } => {
            let member_str = member.as_str();
            let member_bytes = member_str.len();
            assert(member_str@ == member@);
            let member_len = #[verifier::truncate] (member_bytes as u32);
            assert(member_len == byte_len_u32(*member));
            proof {
                assert(expr_ok(*e, t) == (expr_ok(**expression, t) && (span.byte_length > byte_len_u32(*member) ==> span_end(span) <= u32::MAX))) by {
                    reveal(expr_ok);
                }
            }
            let a = expr_walk_ok(expression, text);
            a && (span.byte_length <= member_len || end <= 0xffff_ffff)
        },
        ExpressionKind::Match { arms } => {
            proof {
                assert(expr_ok(*e, t) == (arms_ok(arms@, t))) by {
                    reveal(expr_ok);
                }
            }
            arms_walk_ok(arms, text)
        },
        ExpressionKind::IfLet { scrutinee, consequence, alternative, .. } => {
            proof {
                assert(expr_ok(*e, t) == (expr_ok(**scrutinee, t) && expr_ok(**consequence, t) && expr_ok(**alternative, t))) by {
                    reveal(expr_ok);
                }
            }
            let a = expr_walk_ok(scrutinee, text);
            let b = expr_walk_ok(consequence, text);
            let c = expr_walk_ok(alternative, text);
            a && b && c
        },
        ExpressionKind::WhileLet { scrutinee, body, .. } => {
            proof {
                assert(expr_ok(*e, t) == (expr_ok(**scrutinee, t) && expr_ok(**body, t))) by {
                    reveal(expr_ok);
                }
            }
            let a = expr_walk_ok(scrutinee, text);
            let b = expr_walk_ok(body, text);
            a && b
        },
        ExpressionKind::StructCall { field_values, .. } => {
            proof {
                assert(expr_ok(*e, t) == (exprs_ok(field_values@, t))) by {
                    reveal(expr_ok);
                }
            }
            exprs_walk_ok(field_values, text)
        },
        ExpressionKind::Binary { left, right } => {
            let from = left.span.byte_offset as u64 + left.span.byte_length as u64;
            let to = right.span.byte_offset as u64;
            proof {
                assert(expr_ok(*e, t) == (expr_ok(**left, t) && expr_ok(**right, t) && span_end(left.span) <= u32::MAX && (span_end(left.span) < right.span.byte_offset ==> slice_ok(t, span_end(left.span), right.span.byte_offset as int)))) by {
                    reveal(expr_ok);
                }
            }
            let a = expr_walk_ok(left, text);
            let b = expr_walk_ok(right, text);
            let c = from <= 0xffff_ffff;
            let d = !(from < to) || slice_valid(text, from, to);
            a && b && c && d
        },
        ExpressionKind::Unary { expression } => {
            let from = span.byte_offset as u64;
            let to = expression.span.byte_offset as u64;
            proof {
                assert(expr_ok(*e, t) == (expr_ok(**expression, t) && (span.byte_offset < expression.span.byte_offset ==> slice_ok(t, span.byte_offset as int, expression.span.byte_offset as int)))) by {
                    reveal(expr_ok);
                }
            }
            let a = expr_walk_ok(expression, text);
            let d = !(from < to) || slice_valid(text, from, to);
            a && d
        },
        ExpressionKind::Block { items } | ExpressionKind::TryBlock { items } | ExpressionKind::RecoverBlock { items } => {
            proof {
                assert(expr_ok(*e, t) == (exprs_ok(items@, t))) by {
                    reveal(expr_ok);
                }
            }
            exprs_walk_ok(items, text)
        },
        ExpressionKind::Tuple { elements } => {
            proof {
                assert(expr_ok(*e, t) == (exprs_ok(elements@, t))) by {
                    reveal(expr_ok);
                }
            }
            exprs_walk_ok(elements, text)
        },
        ExpressionKind::Call { expression, args } => {
            proof {
                assert(expr_ok(*e, t) == (expr_ok(**expression, t) && exprs_ok(args@, t))) by {
                    reveal(expr_ok);
                }
            }
            let a = expr_walk_ok(expression, text);
            let b = exprs_walk_ok(args, text);
            a && b
        },
        ExpressionKind::If { condition, consequence, alternative } => {
            proof {
                assert(expr_ok(*e, t) == (expr_ok(**condition, t) && expr_ok(**consequence, t) && expr_ok(**alternative, t))) by {
                    reveal(expr_ok);
                }
            }
            let a = expr_walk_ok(condition, text);
            let b = expr_walk_ok(consequence, text);
            let c = expr_walk_ok(alternative, text);
            a && b && c
        },
        ExpressionKind::While { condition, body } => {
            proof {
                assert(expr_ok(*e, t) == (expr_ok(**condition, t) && expr_ok(**body, t))) by {
                    reveal(expr_ok);
                }
            }
            let a = expr_walk_ok(condition, text);
            let b = expr_walk_ok(body, text);
            a && b
        },
        ExpressionKind::Return { expression }
        | ExpressionKind::Defer { expression }
        | ExpressionKind::Task { expression }
        | ExpressionKind::Paren { expression }
        | ExpressionKind::Cast { expression }
        | ExpressionKind::Reference { expression } => {
            proof {
                assert(expr_ok(*e, t) == (expr_ok(**expression, t))) by {
                    reveal(expr_ok);
                }
            }
            expr_walk_ok(expression, text)
        },
        ExpressionKind::Loop { body } => {
            proof {
                assert(expr_ok(*e, t) == (expr_ok(**body, t))) by {
                    reveal(expr_ok);
                }
            }
            expr_walk_ok(body, text)
        },
        ExpressionKind::Select { arms } => {
            proof {
                assert(expr_ok(*e, t) == (select_arms_ok(arms@, t))) by {
                    reveal(expr_ok);
                }
            }
            select_arms_walk_ok(arms, text)
        },
        ExpressionKind::Break { value } => {
            proof {
                assert(expr_ok(*e, t) == (match value { Some(v) => expr_ok(**v, t), None => true })) by {
                    reveal(expr_ok);
                }
            }
            match value {
                Some(v) => expr_walk_ok(v, text),
                None => true,
            }
        },
        ExpressionKind::Range { start, end: finish } => {
            let from: u64 = match start {
                Some(s) => s.span.byte_offset as u64 + s.span.byte_length as u64,
                None => span.byte_offset as u64,
            };
            let to: u64 = match finish {
                Some(x) => x.span.byte_offset as u64,
                None => end,
            };
            proof {
                let f = match start { Some(s) => span_end(s.span), None => span.byte_offset as int };
                let g = match finish { Some(x) => x.span.byte_offset as int, None => span_end(span) };
                assert(from == f && to == g);
                assert(expr_ok(*e, t) == (span_end(span) <= u32::MAX && match start { Some(s) => expr_ok(**s, t) && span_end(s.span) <= u32::MAX, None => true } && match finish { Some(x) => expr_ok(**x, t), None => true } && (f < g ==> slice_ok(t, f, g)))) by {
                    reveal(expr_ok);
                }
            }
            let a = end <= 0xffff_ffff;
            let b = match start {
                Some(s) => {
                    let ok = expr_walk_ok(s, text);
                    ok && from <= 0xffff_ffff
                },
                None => true,
            };
            let c = match finish {
                Some(x) => expr_walk_ok(x, text),
                None => true,
            };
            let d = !(from < to) || slice_valid(text, from, to);
            a && b && c && d
        },
        ExpressionKind::IndexedAccess { expression, index } => {
            proof {
                assert(expr_ok(*e, t) == (expr_ok(**expression, t) && expr_ok(**index, t))) by {
                    reveal(expr_ok);
                }
            }
            let a = expr_walk_ok(expression, text);
            let b = expr_walk_ok(index, text);
            a && b
        },
        ExpressionKind::Propagate { expression } => {
            let from = expression.span.byte_offset as u64 + expression.span.byte_length as u64;
            proof {
                assert(expr_ok(*e, t) == (expr_ok(**expression, t) && span_end(expression.span) <= u32::MAX && span_end(span) <= u32::MAX && (span_end(expression.span) < span_end(span) ==> slice_ok(t, span_end(expression.span), span_end(span))))) by {
                    reveal(expr_ok);
                }
            }
            let a = expr_walk_ok(expression, text);
            let d = !(from < end) || slice_valid(text, from, end);
            a && from <= 0xffff_ffff && end <= 0xffff_ffff && d
        },
        ExpressionKind::Assignment { target, value } => {
            let from = target.span.byte_offset as u64 + target.span.byte_length as u64;
            let to = value.span.byte_offset as u64;
            proof {
                assert(expr_ok(*e, t) == (expr_ok(**target, t) && expr_ok(**value, t) && span_end(target.span) <= u32::MAX && (span_end(target.span) < value.span.byte_offset ==> slice_ok(t, span_end(target.span), value.span.byte_offset as int)))) by {
                    reveal(expr_ok);
                }
            }
            let a = expr_walk_ok(target, text);
            let b = expr_walk_ok(value, text);
            let d = !(from < to) || slice_valid(text, from, to);
            a && b && from <= 0xffff_ffff && d
        },
        ExpressionKind::Literal { literal } => {
            match literal {
                Literal::FormatString(parts) => {
                    proof {
                        assert(expr_ok(*e, t) == (format_parts_ok(parts@, t))) by {
                            reveal(expr_ok);
                        }
                    }
                    format_parts_walk_ok(parts, text)
                },
                Literal::Slice(elements) => {
                    proof {
                        assert(expr_ok(*e, t) == (exprs_ok(elements@, t))) by {
                            reveal(expr_ok);
                        }
                    }
                    exprs_walk_ok(elements, text)
                },
                _ => {
                    proof {
                        assert(expr_ok(*e, t) == (true)) by {
                            reveal(expr_ok);
                        }
                    }
                    true
                },
            }
        },
        _ => {
            proof {
                assert(expr_ok(*e, t) == (true)) by {
                    reveal(expr_ok);
                }
            }
            true
        },
    }
}

fn exprs_walk_ok(es: &Vec<Expression>, text: &[u8]) -> (r: bool)
    ensures
        r == exprs_ok(es@, text@),
    decreases es@,
{
    let mut ok = true;
    let mut i: usize = 0;
    assert(es@.take(0) =~= Seq::<Expression>::empty());
    while i < es.len()
        invariant
            i <= es@.len(),
            ok == exprs_ok(es@.take(i as int), text@),
        decreases es@.len() - i,
    {
        proof {
            assert(decreases_to!(es@ => es@[i as int]));
            assert(es@.take(i + 1).drop_last() =~= es@.take(i as int));
            assert(es@.take(i + 1).last() == es@[i as int]);
            assert(exprs_ok(es@.take(i + 1), text@) == (exprs_ok(es@.take(i as int), text@) && expr_ok(es@[i as int], text@))) by {
                reveal(expr_ok);
            }
        }
        let b = expr_walk_ok(&es[i], text);
        ok = ok && b;
        i = i + 1;
    }
    assert(es@.take(i as int) =~= es@);
    ok
}

fn arms_walk_ok(arms: &Vec<MatchArm>, text: &[u8]) -> (r: bool)
    ensures
        r == arms_ok(arms@, text@),
    decreases arms@,
{
    let mut ok = true;
    let mut i: usize = 0;
    assert(arms@.take(0) =~= Seq::<MatchArm>::empty());
    while i < arms.len()
        invariant
            i <= arms@.len(),
            ok == arms_ok(arms@.take(i as int), text@),
        decreases arms@.len() - i,
    {
        let arm = &arms[i];
        proof {
            assert(decreases_to!(arms@ => arms@[i as int]));
            assert(arms@.take(i + 1).drop_last() =~= arms@.take(i as int));
            assert(arms@.take(i + 1).last() == arms@[i as int]);
            assert(arms_ok(arms@.take(i + 1), text@) == (arms_ok(arms@.take(i as int), text@) && match arm.guard {
                Some(g) => expr_ok(*g, text@),
                None => true,
            } && expr_ok(*arm.expression, text@))) by {
                reveal(expr_ok);
            }
        }
        let g = match &arm.guard {
            Some(g) => expr_walk_ok(g, text),
            None => true,
        };
        let b = expr_walk_ok(&arm.expression, text);
        ok = ok && g && b;
        i = i + 1;
    }
    assert(arms@.take(i as int) =~= arms@);
    ok
}

fn receive_arms_walk_ok(arms: &Vec<MatchArm>, text: &[u8]) -> (r: bool)
    ensures
        r == receive_arms_ok(arms@, text@),
    decreases arms@,
{
    let mut ok = true;
    let mut i: usize = 0;
    assert(arms@.take(0) =~= Seq::<MatchArm>::empty());
    while i < arms.len()
        invariant
            i <= arms@.len(),
            ok == receive_arms_ok(arms@.take(i as int), text@),
        decreases arms@.len() - i,
    {
        proof {
            assert(decreases_to!(arms@ => arms@[i as int]));
            assert(arms@.take(i + 1).drop_last() =~= arms@.take(i as int));
            assert(arms@.take(i + 1).last() == arms@[i as int]);
            assert(receive_arms_ok(arms@.take(i + 1), text@) == (receive_arms_ok(arms@.take(i as int), text@) && expr_ok(*arms@[i as int].expression, text@))) by {
                reveal(expr_ok);
            }
        }
        let b = expr_walk_ok(&arms[i].expression, text);
        ok = ok && b;
        i = i + 1;
    }
    assert(arms@.take(i as int) =~= arms@);
    ok
}

fn select_arms_walk_ok(arms: &Vec<SelectArm>, text: &[u8]) -> (r: bool)
    ensures
        r == select_arms_ok(arms@, text@),
    decreases arms@,
{
    let mut ok = true;
    let mut i: usize = 0;
    assert(arms@.take(0) =~= Seq::<SelectArm>::empty());
    while i < arms.len()
        invariant
            i <= arms@.len(),
            ok == select_arms_ok(arms@.take(i as int), text@),
        decreases arms@.len() - i,
    {
        proof {
            assert(decreases_to!(arms@ => arms@[i as int]));
            assert(arms@.take(i + 1).drop_last() =~= arms@.take(i as int));
            assert(arms@.take(i + 1).last() == arms@[i as int]);
            assert(select_arms_ok(arms@.take(i + 1), text@) == (select_arms_ok(arms@.take(i as int), text@) && match arms@[i as int].pattern {
                SelectArmPattern::Receive { body } => expr_ok(*body, text@),
                SelectArmPattern::Send { body } => expr_ok(*body, text@),
                SelectArmPattern::MatchReceive { arms } => receive_arms_ok(arms@, text@),
                SelectArmPattern::WildCard { body } => expr_ok(*body, text@),
            })) by {
                reveal(expr_ok);
            }
        }
        let b = match &arms[i].pattern {
            SelectArmPattern::Receive { body } => expr_walk_ok(body, text),
            SelectArmPattern::Send { body } => expr_walk_ok(body, text),
            SelectArmPattern::MatchReceive { arms: inner } => receive_arms_walk_ok(inner, text),
            SelectArmPattern::WildCard { body } => expr_walk_ok(body, text),
        };
        ok = ok && b;
        i = i + 1;
    }
    assert(arms@.take(i as int) =~= arms@);
    ok
}

fn format_parts_walk_ok(parts: &Vec<FormatStringPart>, text: &[u8]) -> (r: bool)
    ensures
        r == format_parts_ok(parts@, text@),
    decreases parts@,
{
    let mut ok = true;
    let mut i: usize = 0;
    assert(parts@.take(0) =~= Seq::<FormatStringPart>::empty());
    while i < parts.len()
        invariant
            i <= parts@.len(),
            ok == format_parts_ok(parts@.take(i as int), text@),
        decreases parts@.len() - i,
    {
        proof {
            assert(decreases_to!(parts@ => parts@[i as int]));
            assert(parts@.take(i + 1).drop_last() =~= parts@.take(i as int));
            assert(parts@.take(i + 1).last() == parts@[i as int]);
            assert(format_parts_ok(parts@.take(i + 1), text@) == (format_parts_ok(parts@.take(i as int), text@) && match parts@[i as int] {
                FormatStringPart::Expression(x) => expr_ok(*x, text@),
                FormatStringPart::Text => true,
            })) by {
                reveal(expr_ok);
            }
        }
        let b = match &parts[i] {
            FormatStringPart::Expression(x) => expr_walk_ok(x, text),
            FormatStringPart::Text => true,
        };
        ok = ok && b;
        i = i + 1;
    }
    assert(parts@.take(i as int) =~= parts@);
    ok
}

/// Whether `compute_semantic_tokens` may run on `file`: every offset the
/// walk computes fits in 32 bits, and every cut of the source falls on a
/// char boundary.
pub fn file_walk_ok(file: &File) -> (r: bool)
    ensures
        r == file_ok(*file),
{
    let text = file.source.as_str().as_bytes();
    assert(text@ == source_bytes(*file));
    exprs_walk_ok(&file.items, text)
}

} // verus!
