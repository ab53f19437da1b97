//! What highlighting promises, stated by what the tokens mean: the type a
//! token names in the legend, the modifiers its bitset carries, and which
//! tokens of the parts of a form stand among the tokens of the form.
use vstd::prelude::*;
use crate::ast::{
    Binding, Expression, ExpressionKind, FieldPattern, File, FormatStringPart, Literal, MatchArm, Pattern,
    RestPattern, SelectArm, SelectArmPattern, Span,
};
use crate::builder::{
    decode, encode, lemma_build_decodes, mark_token, mark_tokens, sort_by_place, AbsoluteToken, Mark,
};
use crate::position::span_range;
use crate::highlight::{
    arms_marks, definition_token_type, expr_marks, exprs_marks, field_patterns_marks,
    format_parts_marks, member_token_type, methods_marks, pattern_marks, patterns_marks, qualify,
    receive_arms_marks, select_arm_marks, select_arms_marks,
};
use crate::legend::{
    first_index_of, lemma_first_index_of, lemma_modifier_bits, lemma_small_legend_fits,
    lemma_type_index, TokenModifier, TokenType,
};
use crate::snapshot::{AnalysisSnapshot, Definition, DefinitionBody, Type};
use crate::text::{
    dot_dot_at, find_dot_dot, leading_ws, lemma_find_dot_dot, lemma_leading_ws_bound,
    lemma_trailing_ws_bound, trimmed,
};

verus! {

// ------------------------------------------------------------------- runs

/// `small` stands in `big` as one contiguous run.
pub open spec fn is_run<T>(small: Seq<T>, big: Seq<T>) -> bool {
    exists|k: int|
        0 <= k && k + small.len() <= big.len() && #[trigger] big.subrange(k, k + small.len())
            == small
}

proof fn lemma_run_self<T>(a: Seq<T>)
    ensures
        is_run(a, a),
{
    let k: int = 0;
    assert(a.subrange(k, k + a.len()) =~= a);
}

proof fn lemma_run_left<T>(x: Seq<T>, a: Seq<T>, b: Seq<T>)
    requires
        is_run(x, a),
    ensures
        is_run(x, a + b),
{
    let k = choose|k: int|
        0 <= k && k + x.len() <= a.len() && #[trigger] a.subrange(k, k + x.len()) == x;
    assert((a + b).subrange(k, k + x.len()) =~= a.subrange(k, k + x.len()));
}

proof fn lemma_run_right<T>(x: Seq<T>, a: Seq<T>, b: Seq<T>)
    requires
        is_run(x, b),
    ensures
        is_run(x, a + b),
{
    let k = choose|k: int|
        0 <= k && k + x.len() <= b.len() && #[trigger] b.subrange(k, k + x.len()) == x;
    assert((a + b).subrange(a.len() + k, a.len() + k + x.len()) =~= b.subrange(k, k + x.len()));
}

/// Each of two parts is a run of their concatenation.
proof fn lemma_runs2<T>(a: Seq<T>, b: Seq<T>)
    ensures
        is_run(a, a + b),
        is_run(b, a + b),
{
    lemma_run_self(a);
    lemma_run_self(b);
    lemma_run_left(a, a, b);
    lemma_run_right(b, a, b);
}

/// Each of three parts is a run of their concatenation.
proof fn lemma_runs3<T>(a: Seq<T>, b: Seq<T>, c: Seq<T>)
    ensures
        is_run(a, a + b + c),
        is_run(b, a + b + c),
        is_run(c, a + b + c),
{
    lemma_runs2(a, b);
    lemma_run_left(a, a + b, c);
    lemma_run_left(b, a + b, c);
    lemma_run_self(c);
    lemma_run_right(c, a + b, c);
}

/// Each of four parts is a run of their concatenation.
proof fn lemma_runs4<T>(a: Seq<T>, b: Seq<T>, c: Seq<T>, d: Seq<T>)
    ensures
        is_run(a, a + b + c + d),
        is_run(b, a + b + c + d),
        is_run(c, a + b + c + d),
        is_run(d, a + b + c + d),
{
    lemma_runs3(a, b, c);
    lemma_run_left(a, a + b + c, d);
    lemma_run_left(b, a + b + c, d);
    lemma_run_left(c, a + b + c, d);
    lemma_run_self(d);
    lemma_run_right(d, a + b + c, d);
}

// -------------------------------------------------------------- modifiers

/// The bitset `bits` over the modifier legend `mods` carries `m`: the bit of
/// the first position of `m` in the legend is set.
pub open spec fn carries(mods: Seq<TokenModifier>, bits: u32, m: TokenModifier) -> bool {
    exists|k: u32|
        k < mods.len() && mods[k as int] == m && (forall|j: int| 0 <= j < k ==> mods[j] != m)
            && #[trigger] ((bits >> k) & 1) == 1
}

/// The bitset of a list of modifiers carries each of them.
proof fn lemma_carries(mods: Seq<TokenModifier>, list: Seq<TokenModifier>, i: int)
    requires
        mods.len() <= 32,
        0 <= i < list.len(),
        mods.contains(list[i]),
    ensures
        carries(mods, crate::legend::modifier_bits(mods, list), list[i]),
{
    lemma_first_index_of(mods, list[i]);
    lemma_small_legend_fits(mods, list);
    let k = first_index_of(mods, list[i])->0;
    lemma_modifier_bits(mods, list, k as u32);
    assert(first_index_of(mods, list[i]) == Some((k as u32) as int));
    assert(mods[(k as u32) as int] == list[i]);
}

/// The bitset `bits` carries exactly the modifiers of `list`: a bit is set
/// just where one of them stands first in the legend.
pub open spec fn carries_exactly(mods: Seq<TokenModifier>, bits: u32, list: Seq<TokenModifier>) -> bool {
    forall|k: u32|
        k < 32 ==> (#[trigger] ((bits >> k) & 1) == 1 <==> exists|i: int|
            0 <= i < list.len() && first_index_of(mods, list[i]) == Some(k as int))
}

proof fn lemma_exact(mods: Seq<TokenModifier>, list: Seq<TokenModifier>)
    requires
        mods.len() <= 32,
    ensures
        carries_exactly(mods, crate::legend::modifier_bits(mods, list), list),
{
    lemma_small_legend_fits(mods, list);
    assert forall|k: u32| k < 32 implies (#[trigger] ((crate::legend::modifier_bits(mods, list) >> k) & 1) == 1 <==> exists|i: int|
        0 <= i < list.len() && first_index_of(mods, list[i]) == Some(k as int)) by {
        lemma_modifier_bits(mods, list, k);
    }
}

// --------------------------------------------------------- name resolution

/// A name that resolves to a definition names its kind in the legend: a
/// struct, an enum (of either sort), an interface, a type alias; a value of
/// function type, whether quantified over type variables or not, is a
/// function; any other value is a variable.
pub proof fn lemma_definition_kind(def: Definition, tys: Seq<TokenType>)
    requires
        tys.len() <= 0x1_0000_0000,
    ensures
        def.body is Struct && tys.contains(TokenType::Struct) ==> tys[definition_token_type(def, tys) as int] == TokenType::Struct,
        (def.body is Enum || def.body is ValueEnum) && tys.contains(TokenType::Enum) ==> tys[definition_token_type(def, tys) as int] == TokenType::Enum,
        def.body is Interface && tys.contains(TokenType::Interface) ==> tys[definition_token_type(def, tys) as int] == TokenType::Interface,
        def.body is TypeAlias && tys.contains(TokenType::Type) ==> tys[definition_token_type(def, tys) as int] == TokenType::Type,
        def.body is Value && (def.ty is Function || def.ty is Forall) && tys.contains(TokenType::Function)
            ==> tys[definition_token_type(def, tys) as int] == TokenType::Function,
        def.body is Value && def.ty is Other && tys.contains(TokenType::Variable) ==> tys[definition_token_type(def, tys) as int] == TokenType::Variable,
{
    lemma_type_index(tys, TokenType::Struct);
    lemma_type_index(tys, TokenType::Enum);
    lemma_type_index(tys, TokenType::Interface);
    lemma_type_index(tys, TokenType::Type);
    lemma_type_index(tys, TokenType::Function);
    lemma_type_index(tys, TokenType::Variable);
}

/// Quantifying a value's type over type variables does not change how a
/// name of it is highlighted.
pub proof fn lemma_definition_kind_ignores_quantifier(
    body: Type,
    ps: Vec<Option<String>>,
    tys: Seq<TokenType>,
)
    ensures
        definition_token_type(Definition { body: DefinitionBody::Value, ty: Type::Forall { body: Box::new(body) } }, tys)
            == definition_token_type(Definition { body: DefinitionBody::Value, ty: Type::Function { param_type_names: ps } }, tys),
{
}

/// The member of `receiver.member`, read from the receiver's type: a field of
/// that struct is a property; a value defined as the type's `member` whose
/// type is a function, quantified or not, is a method when its first
/// parameter has the receiver's type and a function otherwise; any other
/// value so defined is a function; everything else is a property.
pub proof fn lemma_member_kind(
    receiver_type: Option<String>,
    member: Seq<char>,
    snap: AnalysisSnapshot,
    tys: Seq<TokenType>,
)
    requires
        tys.len() <= 0x1_0000_0000,
        tys.contains(TokenType::Property),
        tys.contains(TokenType::Method),
        tys.contains(TokenType::Function),
    ensures
        receiver_type is None ==> tys[member_token_type(receiver_type, member, snap, tys) as int] == TokenType::Property,
        receiver_type matches Some(t) && snap.definitions.lookup(t@) matches Some(sd)
            && sd.body matches DefinitionBody::Struct { fields }
            && (exists|i: int| 0 <= i < fields@.len() && #[trigger] fields@[i].name@ == member)
            ==> tys[member_token_type(receiver_type, member, snap, tys) as int] == TokenType::Property,
        receiver_type matches Some(t) && !(snap.definitions.lookup(t@) matches Some(sd)
            && sd.body matches DefinitionBody::Struct { fields }
            && (exists|i: int| 0 <= i < fields@.len() && #[trigger] fields@[i].name@ == member))
            ==> {
            let r = tys[member_token_type(receiver_type, member, snap, tys) as int];
            let tid = receiver_type->0@;
            match snap.definitions.lookup(qualify(tid, member)) {
                Some(d) => match d.body {
                    DefinitionBody::Value => {
                        let ps = match d.ty {
                            Type::Function { param_type_names } => Some(param_type_names@),
                            Type::Forall { body } => match *body {
                                Type::Function { param_type_names } => Some(param_type_names@),
                                _ => None,
                            },
                            Type::Other => None,
                        };
                        match ps {
                            Some(ps) => if ps.len() > 0 && ps[0] is Some && ps[0]->0@ == tid {
                                r == TokenType::Method
                            } else {
                                r == TokenType::Function
                            },
                            None => r == TokenType::Function,
                        }
                    },
                    _ => r == TokenType::Property,
                },
                None => r == TokenType::Property,
            }
        },
{
    lemma_type_index(tys, TokenType::Property);
    lemma_type_index(tys, TokenType::Method);
    lemma_type_index(tys, TokenType::Function);
}

// ----------------------------------------------------------- declarations

/// `ms` is a single mark, at `span`, naming `t` in the legend.
pub open spec fn only_mark_names(ms: Seq<Mark>, span: Span, tys: Seq<TokenType>, t: TokenType) -> bool {
    ms.len() == 1 && ms[0].span == span && tys[ms[0].token_type as int] == t
}

/// The first mark of `ms` is at `span` and names `t` in the legend.
pub open spec fn first_mark_names(ms: Seq<Mark>, span: Span, tys: Seq<TokenType>, t: TokenType) -> bool {
    ms.len() >= 1 && ms[0].span == span && tys[ms[0].token_type as int] == t
}

/// `ms` is a single mark at `span`, naming `t` and carrying the declaration
/// modifier and no other.
pub open spec fn declared_as(
    ms: Seq<Mark>,
    span: Span,
    tys: Seq<TokenType>,
    mods: Seq<TokenModifier>,
    t: TokenType,
) -> bool {
    &&& only_mark_names(ms, span, tys, t)
    &&& carries(mods, ms[0].modifiers, TokenModifier::Declaration)
    &&& carries_exactly(mods, ms[0].modifiers, seq![TokenModifier::Declaration])
}

/// Every declaration highlights its name as what it declares, with the
/// declaration modifier: a struct, an enum, an interface, a type alias or a
/// variable declaration has that one token; a constant's one token is a
/// variable that is also read-only and static; a function's name comes
/// first.
pub proof fn lemma_declarations(
    e: Expression,
    file: File,
    snap: AnalysisSnapshot,
    tys: Seq<TokenType>,
    mods: Seq<TokenModifier>,
)
    requires
        tys.len() <= 0x1_0000_0000,
        mods.len() <= 32,
        mods.contains(TokenModifier::Declaration),
        mods.contains(TokenModifier::Readonly),
        mods.contains(TokenModifier::Static),
        tys.contains(TokenType::Struct),
        tys.contains(TokenType::Enum),
        tys.contains(TokenType::Interface),
        tys.contains(TokenType::Type),
        tys.contains(TokenType::Variable),
        tys.contains(TokenType::Function),
    ensures
        e.kind matches ExpressionKind::Struct { name_span }
            ==> declared_as(expr_marks(e, file, snap, tys, mods), name_span, tys, mods, TokenType::Struct),
        e.kind matches ExpressionKind::Enum { name_span }
            ==> declared_as(expr_marks(e, file, snap, tys, mods), name_span, tys, mods, TokenType::Enum),
        e.kind matches ExpressionKind::ValueEnum { name_span }
            ==> declared_as(expr_marks(e, file, snap, tys, mods), name_span, tys, mods, TokenType::Enum),
        e.kind matches ExpressionKind::Interface { name_span }
            ==> declared_as(expr_marks(e, file, snap, tys, mods), name_span, tys, mods, TokenType::Interface),
        e.kind matches ExpressionKind::TypeAlias { name_span }
            ==> declared_as(expr_marks(e, file, snap, tys, mods), name_span, tys, mods, TokenType::Type),
        e.kind matches ExpressionKind::VariableDeclaration { name_span }
            ==> declared_as(expr_marks(e, file, snap, tys, mods), name_span, tys, mods, TokenType::Variable),
        e.kind matches ExpressionKind::Const { identifier_span }
            ==> only_mark_names(expr_marks(e, file, snap, tys, mods), identifier_span, tys, TokenType::Variable)
            && carries(mods, expr_marks(e, file, snap, tys, mods)[0].modifiers, TokenModifier::Declaration)
            && carries(mods, expr_marks(e, file, snap, tys, mods)[0].modifiers, TokenModifier::Readonly)
            && carries(mods, expr_marks(e, file, snap, tys, mods)[0].modifiers, TokenModifier::Static)
            && carries_exactly(mods, expr_marks(e, file, snap, tys, mods)[0].modifiers, seq![TokenModifier::Readonly, TokenModifier::Static, TokenModifier::Declaration]),
        e.kind matches ExpressionKind::Function { name_span, .. }
            ==> first_mark_names(expr_marks(e, file, snap, tys, mods), name_span, tys, TokenType::Function)
            && carries(mods, expr_marks(e, file, snap, tys, mods)[0].modifiers, TokenModifier::Declaration),
{
    reveal(expr_marks);
    lemma_type_index(tys, TokenType::Struct);
    lemma_type_index(tys, TokenType::Enum);
    lemma_type_index(tys, TokenType::Interface);
    lemma_type_index(tys, TokenType::Type);
    lemma_type_index(tys, TokenType::Variable);
    lemma_type_index(tys, TokenType::Function);
    let d = seq![TokenModifier::Declaration];
    let c = seq![TokenModifier::Readonly, TokenModifier::Static, TokenModifier::Declaration];
    assert(mods.contains(d[0]));
    assert(mods.contains(c[0]) && mods.contains(c[1]) && mods.contains(c[2]));
    lemma_carries(mods, d, 0);
    lemma_carries(mods, c, 0);
    lemma_carries(mods, c, 1);
    lemma_carries(mods, c, 2);
    lemma_exact(mods, d);
    lemma_exact(mods, c);
    match e.kind {
        ExpressionKind::Function { name_span, params, body } => {
            let ms = expr_marks(e, file, snap, tys, mods);
            let head = crate::highlight::one(name_span, crate::highlight::tok(tys, TokenType::Function), crate::highlight::decl_bits(mods));
            assert(ms == head + crate::highlight::params_marks(params@, tys, mods) + expr_marks(*body, file, snap, tys, mods));
            assert(ms[0] == head[0]);
        },
        _ => {},
    }
}

// --------------------------------------------------------------- patterns

/// The patterns directly inside `p`.
pub open spec fn subpatterns(p: Pattern) -> Seq<Pattern> {
    match p {
        Pattern::EnumVariant { fields, .. } => fields@,
        Pattern::Tuple { elements } => elements@,
        Pattern::Struct { fields, .. } => fields@.map_values(|f: FieldPattern| f.value),
        Pattern::AsBinding { pattern, .. } => seq![*pattern],
        Pattern::Or { patterns } => patterns@,
        Pattern::Slice { prefix, .. } => prefix@,
        _ => Seq::empty(),
    }
}

proof fn lemma_patterns_runs(ps: Seq<Pattern>, tys: Seq<TokenType>, mods: Seq<TokenModifier>)
    ensures
        forall|i: int| 0 <= i < ps.len() ==> is_run(pattern_marks(#[trigger] ps[i], tys, mods), patterns_marks(ps, tys, mods)),
    decreases ps.len(),
{
    if ps.len() > 0 {
        let init = ps.drop_last();
        lemma_patterns_runs(init, tys, mods);
        lemma_runs2(patterns_marks(init, tys, mods), pattern_marks(ps.last(), tys, mods));
        assert forall|i: int| 0 <= i < ps.len() implies is_run(pattern_marks(#[trigger] ps[i], tys, mods), patterns_marks(ps, tys, mods)) by {
            if i < init.len() {
                assert(ps[i] == init[i]);
                lemma_run_left(pattern_marks(init[i], tys, mods), patterns_marks(init, tys, mods), pattern_marks(ps.last(), tys, mods));
            }
        }
    }
}

proof fn lemma_field_patterns_runs(fs: Seq<FieldPattern>, tys: Seq<TokenType>, mods: Seq<TokenModifier>)
    ensures
        forall|i: int| 0 <= i < fs.len() ==> is_run(pattern_marks(#[trigger] fs[i].value, tys, mods), field_patterns_marks(fs, tys, mods)),
    decreases fs.len(),
{
    if fs.len() > 0 {
        let init = fs.drop_last();
        lemma_field_patterns_runs(init, tys, mods);
        lemma_runs2(field_patterns_marks(init, tys, mods), pattern_marks(fs.last().value, tys, mods));
        assert forall|i: int| 0 <= i < fs.len() implies is_run(pattern_marks(#[trigger] fs[i].value, tys, mods), field_patterns_marks(fs, tys, mods)) by {
            if i < init.len() {
                assert(fs[i] == init[i]);
                lemma_run_left(pattern_marks(init[i].value, tys, mods), field_patterns_marks(init, tys, mods), pattern_marks(fs.last().value, tys, mods));
            }
        }
    }
}

/// Nothing inside a pattern goes unhighlighted: the tokens of each pattern
/// directly inside it stand, as a run, among the pattern's own tokens.
pub proof fn lemma_pattern_parts(p: Pattern, tys: Seq<TokenType>, mods: Seq<TokenModifier>)
    ensures
        forall|i: int| 0 <= i < subpatterns(p).len() ==> is_run(
            pattern_marks(#[trigger] subpatterns(p)[i], tys, mods),
            pattern_marks(p, tys, mods),
        ),
{
    match p {
        Pattern::EnumVariant { fields, span } => {
            lemma_patterns_runs(fields@, tys, mods);
            let head = crate::highlight::one(span, crate::highlight::tok(tys, TokenType::EnumMember), 0);
            assert forall|i: int| 0 <= i < subpatterns(p).len() implies is_run(pattern_marks(#[trigger] subpatterns(p)[i], tys, mods), pattern_marks(p, tys, mods)) by {
                lemma_run_right(pattern_marks(fields@[i], tys, mods), head, patterns_marks(fields@, tys, mods));
            }
        },
        Pattern::Tuple { elements } => {
            lemma_patterns_runs(elements@, tys, mods);
        },
        Pattern::Struct { fields, span } => {
            lemma_field_patterns_runs(fields@, tys, mods);
            let head = crate::highlight::one(span, crate::highlight::tok(tys, TokenType::EnumMember), 0);
            assert forall|i: int| 0 <= i < subpatterns(p).len() implies is_run(pattern_marks(#[trigger] subpatterns(p)[i], tys, mods), pattern_marks(p, tys, mods)) by {
                assert(subpatterns(p)[i] == fields@[i].value);
                lemma_run_right(pattern_marks(fields@[i].value, tys, mods), head, field_patterns_marks(fields@, tys, mods));
            }
        },
        Pattern::AsBinding { pattern, span } => {
            let head = crate::highlight::one(span, crate::highlight::tok(tys, TokenType::Variable), crate::highlight::decl_bits(mods));
            lemma_runs2(head, pattern_marks(*pattern, tys, mods));
        },
        Pattern::Or { patterns } => {
            lemma_patterns_runs(patterns@, tys, mods);
        },
        Pattern::Slice { prefix, rest } => {
            lemma_patterns_runs(prefix@, tys, mods);
            let tail = match rest {
                RestPattern::Bind { span } => crate::highlight::one(span, crate::highlight::tok(tys, TokenType::Variable), crate::highlight::decl_bits(mods)),
                RestPattern::Unbound => Seq::<Mark>::empty(),
            };
            assert forall|i: int| 0 <= i < subpatterns(p).len() implies is_run(pattern_marks(#[trigger] subpatterns(p)[i], tys, mods), pattern_marks(p, tys, mods)) by {
                lemma_run_left(pattern_marks(prefix@[i], tys, mods), patterns_marks(prefix@, tys, mods), tail);
            }
        },
        _ => {},
    }
}

/// What a pattern itself highlights: a name it binds, directly or with
/// `as`, is a declared variable; a variant or struct it matches is an enum
/// member, with no modifier; a bound rest of a slice is a declared variable;
/// a wildcard, literal or unit pattern highlights nothing.
pub proof fn lemma_pattern_heads(p: Pattern, tys: Seq<TokenType>, mods: Seq<TokenModifier>)
    requires
        tys.len() <= 0x1_0000_0000,
        tys.contains(TokenType::Variable),
        tys.contains(TokenType::EnumMember),
        mods.len() <= 32,
        mods.contains(TokenModifier::Declaration),
    ensures
        p matches Pattern::Identifier { span } ==> only_mark_names(pattern_marks(p, tys, mods), span, tys, TokenType::Variable)
            && carries(mods, pattern_marks(p, tys, mods)[0].modifiers, TokenModifier::Declaration)
            && carries_exactly(mods, pattern_marks(p, tys, mods)[0].modifiers, seq![TokenModifier::Declaration]),
        p matches Pattern::AsBinding { span, .. } ==> first_mark_names(pattern_marks(p, tys, mods), span, tys, TokenType::Variable)
            && carries(mods, pattern_marks(p, tys, mods)[0].modifiers, TokenModifier::Declaration)
            && carries_exactly(mods, pattern_marks(p, tys, mods)[0].modifiers, seq![TokenModifier::Declaration]),
        p matches Pattern::EnumVariant { span, .. } ==> first_mark_names(pattern_marks(p, tys, mods), span, tys, TokenType::EnumMember)
            && pattern_marks(p, tys, mods)[0].modifiers == 0,
        p matches Pattern::Struct { span, .. } ==> first_mark_names(pattern_marks(p, tys, mods), span, tys, TokenType::EnumMember)
            && pattern_marks(p, tys, mods)[0].modifiers == 0,
        p matches Pattern::Slice { rest: RestPattern::Bind { span }, .. } ==> pattern_marks(p, tys, mods).len() >= 1
            && pattern_marks(p, tys, mods).last().span == span && tys[pattern_marks(p, tys, mods).last().token_type as int] == TokenType::Variable
            && carries(mods, pattern_marks(p, tys, mods).last().modifiers, TokenModifier::Declaration),
        p is WildCard || p is Literal || p is Unit ==> pattern_marks(p, tys, mods).len() == 0,
{
    lemma_type_index(tys, TokenType::Variable);
    lemma_type_index(tys, TokenType::EnumMember);
    let d = seq![TokenModifier::Declaration];
    assert(mods.contains(d[0]));
    lemma_carries(mods, d, 0);
    lemma_exact(mods, d);
    match p {
        Pattern::AsBinding { pattern, span } => {
            let head = crate::highlight::one(span, crate::highlight::tok(tys, TokenType::Variable), crate::highlight::decl_bits(mods));
            assert(pattern_marks(p, tys, mods)[0] == head[0]);
        },
        Pattern::EnumVariant { fields, span } => {
            let head = crate::highlight::one(span, crate::highlight::tok(tys, TokenType::EnumMember), 0);
            assert(pattern_marks(p, tys, mods)[0] == head[0]);
        },
        Pattern::Struct { fields, span } => {
            let head = crate::highlight::one(span, crate::highlight::tok(tys, TokenType::EnumMember), 0);
            assert(pattern_marks(p, tys, mods)[0] == head[0]);
        },
        Pattern::Slice { prefix, rest } => {
            match rest {
                RestPattern::Bind { span } => {
                    let tail = crate::highlight::one(span, crate::highlight::tok(tys, TokenType::Variable), crate::highlight::decl_bits(mods));
                    let ms = pattern_marks(p, tys, mods);
                    assert(ms == patterns_marks(prefix@, tys, mods) + tail);
                    assert(ms.last() == tail[0]);
                },
                _ => {},
            }
        },
        _ => {},
    }
}

// ------------------------------------------------------ nested expressions

/// The expressions directly inside `e` whose tokens `e` shows as they are:
/// its operands, bodies, items, arguments, arm guards and bodies, bounds and
/// interpolations. (A function inside an impl block is a method: its body is
/// such an expression, its name is not highlighted as a function.)
pub open spec fn children(e: Expression) -> Seq<Expression> {
    match e.kind {
        ExpressionKind::Function { body, .. } => seq![*body],
        ExpressionKind::ImplBlock { methods } => method_children(methods@),
        ExpressionKind::Let { value, .. } => seq![*value],
        ExpressionKind::For { iterable, body, .. } => seq![*iterable, *body],
        ExpressionKind::Lambda { body, .. } => seq![*body],
        ExpressionKind::DotAccess { expression, .. } => seq![*expression],
        ExpressionKind::Match { arms } => arm_children(arms@),
        ExpressionKind::IfLet { scrutinee, consequence, alternative, .. } => seq![
            *scrutinee,
            *consequence,
            *alternative,
        ],
        ExpressionKind::WhileLet { scrutinee, body, .. } => seq![*scrutinee, *body],
        ExpressionKind::StructCall { field_values, .. } => field_values@,
        ExpressionKind::Binary { left, right } => seq![*left, *right],
        ExpressionKind::Unary { expression } => seq![*expression],
        ExpressionKind::Block { items } => items@,
        ExpressionKind::Tuple { elements } => elements@,
        ExpressionKind::Call { expression, args } => seq![*expression] + args@,
        ExpressionKind::If { condition, consequence, alternative } => seq![
            *condition,
            *consequence,
            *alternative,
        ],
        ExpressionKind::While { condition, body } => seq![*condition, *body],
        ExpressionKind::Return { expression } => seq![*expression],
        ExpressionKind::Defer { expression } => seq![*expression],
        ExpressionKind::Select { arms } => select_children(arms@),
        ExpressionKind::Task { expression } => seq![*expression],
        ExpressionKind::TryBlock { items } => items@,
        ExpressionKind::RecoverBlock { items } => items@,
        ExpressionKind::Break { value } => match value {
            Some(v) => seq![*v],
            None => Seq::empty(),
        },
        ExpressionKind::Paren { expression } => seq![*expression],
        ExpressionKind::Range { start, end } => (match start {
            Some(s) => seq![*s],
            None => Seq::empty(),
        }) + (match end {
            Some(x) => seq![*x],
            None => Seq::empty(),
        }),
        ExpressionKind::IndexedAccess { expression, index } => seq![*expression, *index],
        ExpressionKind::Cast { expression } => seq![*expression],
        ExpressionKind::Loop { body } => seq![*body],
        ExpressionKind::Propagate { expression } => seq![*expression],
        ExpressionKind::Reference { expression } => seq![*expression],
        ExpressionKind::Assignment { target, value } => seq![*target, *value],
        ExpressionKind::Literal { literal } => match literal {
            Literal::FormatString(parts) => part_children(parts@),
            Literal::Slice(elements) => elements@,
            _ => Seq::empty(),
        },
        _ => Seq::empty(),
    }
}

/// The bodies of the function methods of an impl block, and its other
/// members themselves.
pub open spec fn method_children(ms: Seq<Expression>) -> Seq<Expression>
    decreases ms.len(),
{
    if ms.len() == 0 {
        Seq::empty()
    } else {
        method_children(ms.drop_last()) + match ms.last().kind {
            ExpressionKind::Function { body, .. } => seq![*body],
            _ => seq![ms.last()],
        }
    }
}

/// The guards and bodies of match arms.
pub open spec fn arm_children(arms: Seq<MatchArm>) -> Seq<Expression>
    decreases arms.len(),
{
    if arms.len() == 0 {
        Seq::empty()
    } else {
        arm_children(arms.drop_last()) + (match arms.last().guard {
            Some(g) => seq![*g],
            None => Seq::empty(),
        }) + seq![*arms.last().expression]
    }
}

/// The bodies of receiving match arms.
pub open spec fn receive_children(arms: Seq<MatchArm>) -> Seq<Expression>
    decreases arms.len(),
{
    if arms.len() == 0 {
        Seq::empty()
    } else {
        receive_children(arms.drop_last()) + seq![*arms.last().expression]
    }
}

/// The bodies of the arms of a select.
pub open spec fn select_children(arms: Seq<SelectArm>) -> Seq<Expression>
    decreases arms.len(),
{
    if arms.len() == 0 {
        Seq::empty()
    } else {
        select_children(arms.drop_last()) + match arms.last().pattern {
            SelectArmPattern::Receive { body } => seq![*body],
            SelectArmPattern::Send { body } => seq![*body],
            SelectArmPattern::MatchReceive { arms } => receive_children(arms@),
            SelectArmPattern::WildCard { body } => seq![*body],
        }
    }
}

/// The expressions interpolated into a format string.
pub open spec fn part_children(parts: Seq<FormatStringPart>) -> Seq<Expression>
    decreases parts.len(),
{
    if parts.len() == 0 {
        Seq::empty()
    } else {
        part_children(parts.drop_last()) + match parts.last() {
            FormatStringPart::Expression(x) => seq![*x],
            FormatStringPart::Text => Seq::empty(),
        }
    }
}

/// The tokens of each expression of `cs` stand as a run in `big`.
pub open spec fn all_runs(
    cs: Seq<Expression>,
    big: Seq<Mark>,
    file: File,
    snap: AnalysisSnapshot,
    tys: Seq<TokenType>,
    mods: Seq<TokenModifier>,
) -> bool {
    forall|i: int| 0 <= i < cs.len() ==> is_run(expr_marks(#[trigger] cs[i], file, snap, tys, mods), big)
}

proof fn lemma_all_runs_one(a: Expression, big: Seq<Mark>, file: File, snap: AnalysisSnapshot, tys: Seq<TokenType>, mods: Seq<TokenModifier>)
    requires
        is_run(expr_marks(a, file, snap, tys, mods), big),
    ensures
        all_runs(seq![a], big, file, snap, tys, mods),
{
    assert forall|i: int| 0 <= i < seq![a].len() implies is_run(expr_marks(#[trigger] seq![a][i], file, snap, tys, mods), big) by {
        assert(seq![a][i] == a);
    }
}

proof fn lemma_all_runs_concat(xs: Seq<Expression>, ys: Seq<Expression>, big: Seq<Mark>, file: File, snap: AnalysisSnapshot, tys: Seq<TokenType>, mods: Seq<TokenModifier>)
    requires
        all_runs(xs, big, file, snap, tys, mods),
        all_runs(ys, big, file, snap, tys, mods),
    ensures
        all_runs(xs + ys, big, file, snap, tys, mods),
{
    assert forall|i: int| 0 <= i < (xs + ys).len() implies is_run(expr_marks(#[trigger] (xs + ys)[i], file, snap, tys, mods), big) by {
        if i < xs.len() {
            assert((xs + ys)[i] == xs[i]);
        } else {
            assert((xs + ys)[i] == ys[i - xs.len()]);
        }
    }
}

/// Runs of a part stay runs of anything that part is concatenated into.
proof fn lemma_all_runs_widen(cs: Seq<Expression>, a: Seq<Mark>, b: Seq<Mark>, file: File, snap: AnalysisSnapshot, tys: Seq<TokenType>, mods: Seq<TokenModifier>)
    ensures
        all_runs(cs, a, file, snap, tys, mods) ==> all_runs(cs, a + b, file, snap, tys, mods),
        all_runs(cs, b, file, snap, tys, mods) ==> all_runs(cs, a + b, file, snap, tys, mods),
{
    if all_runs(cs, a, file, snap, tys, mods) {
        assert forall|i: int| 0 <= i < cs.len() implies is_run(expr_marks(#[trigger] cs[i], file, snap, tys, mods), a + b) by {
            lemma_run_left(expr_marks(cs[i], file, snap, tys, mods), a, b);
        }
    }
    if all_runs(cs, b, file, snap, tys, mods) {
        assert forall|i: int| 0 <= i < cs.len() implies is_run(expr_marks(#[trigger] cs[i], file, snap, tys, mods), a + b) by {
            lemma_run_right(expr_marks(cs[i], file, snap, tys, mods), a, b);
        }
    }
}

proof fn lemma_exprs_runs(es: Seq<Expression>, file: File, snap: AnalysisSnapshot, tys: Seq<TokenType>, mods: Seq<TokenModifier>)
    ensures
        all_runs(es, exprs_marks(es, file, snap, tys, mods), file, snap, tys, mods),
    decreases es.len(),
{
    reveal(expr_marks);
    if es.len() > 0 {
        let init = es.drop_last();
        let a = exprs_marks(init, file, snap, tys, mods);
        let b = expr_marks(es.last(), file, snap, tys, mods);
        lemma_exprs_runs(init, file, snap, tys, mods);
        lemma_all_runs_widen(init, a, b, file, snap, tys, mods);
        lemma_runs2(a, b);
        lemma_all_runs_one(es.last(), a + b, file, snap, tys, mods);
        lemma_all_runs_concat(init, seq![es.last()], a + b, file, snap, tys, mods);
        assert(init + seq![es.last()] =~= es);
    }
}

proof fn lemma_methods_runs(ms: Seq<Expression>, file: File, snap: AnalysisSnapshot, tys: Seq<TokenType>, mods: Seq<TokenModifier>)
    ensures
        all_runs(method_children(ms), methods_marks(ms, file, snap, tys, mods), file, snap, tys, mods),
    decreases ms.len(),
{
    reveal(expr_marks);
    if ms.len() > 0 {
        let init = ms.drop_last();
        let last = ms.last();
        let a = methods_marks(init, file, snap, tys, mods);
        lemma_methods_runs(init, file, snap, tys, mods);
        match last.kind {
            ExpressionKind::Function { name_span, params, body } => {
                let head = crate::highlight::one(name_span, crate::highlight::tok(tys, TokenType::Method), crate::highlight::decl_bits(mods));
                let pm = crate::highlight::params_marks(params@, tys, mods);
                let bm = expr_marks(*body, file, snap, tys, mods);
                let b = head + pm + bm;
                assert(methods_marks(ms, file, snap, tys, mods) == a + b);
                lemma_all_runs_widen(method_children(init), a, b, file, snap, tys, mods);
                lemma_runs3(head, pm, bm);
                lemma_run_right(bm, a, b);
                lemma_all_runs_one(*body, a + b, file, snap, tys, mods);
                lemma_all_runs_concat(method_children(init), seq![*body], a + b, file, snap, tys, mods);
            },
            _ => {
                let b = expr_marks(last, file, snap, tys, mods);
                assert(methods_marks(ms, file, snap, tys, mods) == a + b);
                lemma_all_runs_widen(method_children(init), a, b, file, snap, tys, mods);
                lemma_runs2(a, b);
                lemma_all_runs_one(last, a + b, file, snap, tys, mods);
                lemma_all_runs_concat(method_children(init), seq![last], a + b, file, snap, tys, mods);
            },
        }
    }
}

proof fn lemma_arms_runs(arms: Seq<MatchArm>, file: File, snap: AnalysisSnapshot, tys: Seq<TokenType>, mods: Seq<TokenModifier>)
    ensures
        all_runs(arm_children(arms), arms_marks(arms, file, snap, tys, mods), file, snap, tys, mods),
    decreases arms.len(),
{
    reveal(expr_marks);
    if arms.len() > 0 {
        let init = arms.drop_last();
        let last = arms.last();
        let a = arms_marks(init, file, snap, tys, mods);
        lemma_arms_runs(init, file, snap, tys, mods);
        let pm = pattern_marks(last.pattern, tys, mods);
        let gm = match last.guard {
            Some(g) => expr_marks(*g, file, snap, tys, mods),
            None => Seq::<Mark>::empty(),
        };
        let em = expr_marks(*last.expression, file, snap, tys, mods);
        let b = pm + gm + em;
        assert(crate::highlight::arm_marks(last, file, snap, tys, mods) == b);
        assert(arms_marks(arms, file, snap, tys, mods) == a + b);
        lemma_all_runs_widen(arm_children(init), a, b, file, snap, tys, mods);
        lemma_runs3(pm, gm, em);
        lemma_run_right(gm, a, b);
        lemma_run_right(em, a, b);
        let gc = match last.guard {
            Some(g) => seq![*g],
            None => Seq::<Expression>::empty(),
        };
        match last.guard {
            Some(g) => {
                lemma_all_runs_one(*g, a + b, file, snap, tys, mods);
            },
            None => {},
        }
        lemma_all_runs_one(*last.expression, a + b, file, snap, tys, mods);
        lemma_all_runs_concat(arm_children(init), gc, a + b, file, snap, tys, mods);
        lemma_all_runs_concat(arm_children(init) + gc, seq![*last.expression], a + b, file, snap, tys, mods);
    }
}

proof fn lemma_receive_runs(arms: Seq<MatchArm>, file: File, snap: AnalysisSnapshot, tys: Seq<TokenType>, mods: Seq<TokenModifier>)
    ensures
        all_runs(receive_children(arms), receive_arms_marks(arms, file, snap, tys, mods), file, snap, tys, mods),
    decreases arms.len(),
{
    reveal(expr_marks);
    if arms.len() > 0 {
        let init = arms.drop_last();
        let a = receive_arms_marks(init, file, snap, tys, mods);
        let b = expr_marks(*arms.last().expression, file, snap, tys, mods);
        lemma_receive_runs(init, file, snap, tys, mods);
        lemma_all_runs_widen(receive_children(init), a, b, file, snap, tys, mods);
        lemma_runs2(a, b);
        lemma_all_runs_one(*arms.last().expression, a + b, file, snap, tys, mods);
        lemma_all_runs_concat(receive_children(init), seq![*arms.last().expression], a + b, file, snap, tys, mods);
    }
}

proof fn lemma_select_runs(arms: Seq<SelectArm>, file: File, snap: AnalysisSnapshot, tys: Seq<TokenType>, mods: Seq<TokenModifier>)
    ensures
        all_runs(select_children(arms), select_arms_marks(arms, file, snap, tys, mods), file, snap, tys, mods),
    decreases arms.len(),
{
    reveal(expr_marks);
    if arms.len() > 0 {
        let init = arms.drop_last();
        let a = select_arms_marks(init, file, snap, tys, mods);
        let b = select_arm_marks(arms.last(), file, snap, tys, mods);
        lemma_select_runs(init, file, snap, tys, mods);
        lemma_all_runs_widen(select_children(init), a, b, file, snap, tys, mods);
        let lc = match arms.last().pattern {
            SelectArmPattern::Receive { body } => seq![*body],
            SelectArmPattern::Send { body } => seq![*body],
            SelectArmPattern::MatchReceive { arms } => receive_children(arms@),
            SelectArmPattern::WildCard { body } => seq![*body],
        };
        match arms.last().pattern {
            SelectArmPattern::MatchReceive { arms: inner } => {
                lemma_receive_runs(inner@, file, snap, tys, mods);
            },
            SelectArmPattern::Receive { body } => {
                lemma_run_self(b);
                lemma_all_runs_one(*body, b, file, snap, tys, mods);
            },
            SelectArmPattern::Send { body } => {
                lemma_run_self(b);
                lemma_all_runs_one(*body, b, file, snap, tys, mods);
            },
            SelectArmPattern::WildCard { body } => {
                lemma_run_self(b);
                lemma_all_runs_one(*body, b, file, snap, tys, mods);
            },
        }
        assert(all_runs(lc, b, file, snap, tys, mods));
        lemma_all_runs_widen(lc, a, b, file, snap, tys, mods);
        lemma_all_runs_concat(select_children(init), lc, a + b, file, snap, tys, mods);
    }
}

proof fn lemma_parts_runs(parts: Seq<FormatStringPart>, file: File, snap: AnalysisSnapshot, tys: Seq<TokenType>, mods: Seq<TokenModifier>)
    ensures
        all_runs(part_children(parts), format_parts_marks(parts, file, snap, tys, mods), file, snap, tys, mods),
    decreases parts.len(),
{
    reveal(expr_marks);
    if parts.len() > 0 {
        let init = parts.drop_last();
        let a = format_parts_marks(init, file, snap, tys, mods);
        lemma_parts_runs(init, file, snap, tys, mods);
        match parts.last() {
            FormatStringPart::Expression(x) => {
                let b = expr_marks(*x, file, snap, tys, mods);
                lemma_all_runs_widen(part_children(init), a, b, file, snap, tys, mods);
                lemma_runs2(a, b);
                lemma_all_runs_one(*x, a + b, file, snap, tys, mods);
                lemma_all_runs_concat(part_children(init), seq![*x], a + b, file, snap, tys, mods);
            },
            FormatStringPart::Text => {
                assert(a + Seq::<Mark>::empty() =~= a);
                assert(part_children(init) + Seq::<Expression>::empty() =~= part_children(init));
            },
        }
    }
}

proof fn lemma_all_runs_two(a: Expression, b: Expression, big: Seq<Mark>, file: File, snap: AnalysisSnapshot, tys: Seq<TokenType>, mods: Seq<TokenModifier>)
    requires
        is_run(expr_marks(a, file, snap, tys, mods), big),
        is_run(expr_marks(b, file, snap, tys, mods), big),
    ensures
        all_runs(seq![a, b], big, file, snap, tys, mods),
{
    lemma_all_runs_one(a, big, file, snap, tys, mods);
    lemma_all_runs_one(b, big, file, snap, tys, mods);
    lemma_all_runs_concat(seq![a], seq![b], big, file, snap, tys, mods);
    assert(seq![a] + seq![b] =~= seq![a, b]);
}

proof fn lemma_all_runs_three(a: Expression, b: Expression, c: Expression, big: Seq<Mark>, file: File, snap: AnalysisSnapshot, tys: Seq<TokenType>, mods: Seq<TokenModifier>)
    requires
        is_run(expr_marks(a, file, snap, tys, mods), big),
        is_run(expr_marks(b, file, snap, tys, mods), big),
        is_run(expr_marks(c, file, snap, tys, mods), big),
    ensures
        all_runs(seq![a, b, c], big, file, snap, tys, mods),
{
    lemma_all_runs_two(a, b, big, file, snap, tys, mods);
    lemma_all_runs_one(c, big, file, snap, tys, mods);
    lemma_all_runs_concat(seq![a, b], seq![c], big, file, snap, tys, mods);
    assert(seq![a, b] + seq![c] =~= seq![a, b, c]);
}

/// Nothing nested in an expression goes unhighlighted: the tokens of each
/// expression directly inside it (see `children`) stand, as a run, among
/// the expression's own tokens. So the condition and body of a loop, both
/// operands of an operator, each item of a block, each argument of a call,
/// the body of every function and method, and so on down, are all
/// highlighted as they would be on their own.
pub proof fn lemma_children_runs(
    e: Expression,
    file: File,
    snap: AnalysisSnapshot,
    tys: Seq<TokenType>,
    mods: Seq<TokenModifier>,
)
    ensures
        all_runs(children(e), expr_marks(e, file, snap, tys, mods), file, snap, tys, mods),
{
    reveal(expr_marks);
    let text = crate::highlight::source_bytes(file);
    let span = e.span;
    let m = expr_marks(e, file, snap, tys, mods);
    match e.kind {
        ExpressionKind::Function { name_span, params, body } => {
            let head = crate::highlight::one(name_span, crate::highlight::tok(tys, TokenType::Function), crate::highlight::decl_bits(mods));
            lemma_runs3(head, crate::highlight::params_marks(params@, tys, mods), expr_marks(*body, file, snap, tys, mods));
            lemma_all_runs_one(*body, m, file, snap, tys, mods);
        },
        ExpressionKind::ImplBlock { methods } => {
            lemma_methods_runs(methods@, file, snap, tys, mods);
        },
        ExpressionKind::Let { binding, value } => {
            lemma_runs2(pattern_marks(binding.pattern, tys, mods), expr_marks(*value, file, snap, tys, mods));
            lemma_all_runs_one(*value, m, file, snap, tys, mods);
        },
        ExpressionKind::For { binding, iterable, body } => {
            lemma_runs3(pattern_marks(binding.pattern, tys, mods), expr_marks(*iterable, file, snap, tys, mods), expr_marks(*body, file, snap, tys, mods));
            lemma_all_runs_two(*iterable, *body, m, file, snap, tys, mods);
        },
        ExpressionKind::Lambda { params, body } => {
            lemma_runs2(crate::highlight::params_marks(params@, tys, mods), expr_marks(*body, file, snap, tys, mods));
            lemma_all_runs_one(*body, m, file, snap, tys, mods);
        },
        ExpressionKind::DotAccess { expression, member, receiver_type } => {
            let em = expr_marks(*expression, file, snap, tys, mods);
            let rest = m.subrange(em.len() as int, m.len() as int);
            assert(m =~= em + rest);
            lemma_runs2(em, rest);
            lemma_all_runs_one(*expression, m, file, snap, tys, mods);
        },
        ExpressionKind::Match { arms } => {
            lemma_arms_runs(arms@, file, snap, tys, mods);
        },
        ExpressionKind::IfLet { pattern, scrutinee, consequence, alternative } => {
            lemma_runs4(pattern_marks(pattern, tys, mods), expr_marks(*scrutinee, file, snap, tys, mods), expr_marks(*consequence, file, snap, tys, mods), expr_marks(*alternative, file, snap, tys, mods));
            lemma_all_runs_three(*scrutinee, *consequence, *alternative, m, file, snap, tys, mods);
        },
        ExpressionKind::WhileLet { pattern, scrutinee, body } => {
            lemma_runs3(pattern_marks(pattern, tys, mods), expr_marks(*scrutinee, file, snap, tys, mods), expr_marks(*body, file, snap, tys, mods));
            lemma_all_runs_two(*scrutinee, *body, m, file, snap, tys, mods);
        },
        ExpressionKind::StructCall { name_span, variant, field_values } => {
            let fm = exprs_marks(field_values@, file, snap, tys, mods);
            let head = m.subrange(0, m.len() - fm.len());
            assert(m =~= head + fm);
            lemma_exprs_runs(field_values@, file, snap, tys, mods);
            lemma_all_runs_widen(field_values@, head, fm, file, snap, tys, mods);
        },
        ExpressionKind::Binary { left, right } => {
            let op = crate::highlight::trimmed_operator_marks(text, crate::highlight::span_end(left.span), right.span.byte_offset as int, span.file_id, tys);
            lemma_runs3(expr_marks(*left, file, snap, tys, mods), op, expr_marks(*right, file, snap, tys, mods));
            lemma_all_runs_two(*left, *right, m, file, snap, tys, mods);
        },
        ExpressionKind::Unary { expression } => {
            let em = expr_marks(*expression, file, snap, tys, mods);
            let op = m.subrange(0, m.len() - em.len());
            assert(m =~= op + em);
            lemma_runs2(op, em);
            lemma_all_runs_one(*expression, m, file, snap, tys, mods);
        },
        ExpressionKind::Block { items } => {
            lemma_exprs_runs(items@, file, snap, tys, mods);
        },
        ExpressionKind::Tuple { elements } => {
            lemma_exprs_runs(elements@, file, snap, tys, mods);
        },
        ExpressionKind::Call { expression, args } => {
            let em = expr_marks(*expression, file, snap, tys, mods);
            let am = exprs_marks(args@, file, snap, tys, mods);
            lemma_runs2(em, am);
            lemma_all_runs_one(*expression, m, file, snap, tys, mods);
            lemma_exprs_runs(args@, file, snap, tys, mods);
            lemma_all_runs_widen(args@, em, am, file, snap, tys, mods);
            lemma_all_runs_concat(seq![*expression], args@, m, file, snap, tys, mods);
        },
        ExpressionKind::If { condition, consequence, alternative } => {
            lemma_runs3(expr_marks(*condition, file, snap, tys, mods), expr_marks(*consequence, file, snap, tys, mods), expr_marks(*alternative, file, snap, tys, mods));
            lemma_all_runs_three(*condition, *consequence, *alternative, m, file, snap, tys, mods);
        },
        ExpressionKind::While { condition, body } => {
            lemma_runs2(expr_marks(*condition, file, snap, tys, mods), expr_marks(*body, file, snap, tys, mods));
            lemma_all_runs_two(*condition, *body, m, file, snap, tys, mods);
        },
        ExpressionKind::Return { expression } => {
            lemma_run_self(m);
            lemma_all_runs_one(*expression, m, file, snap, tys, mods);
        },
        ExpressionKind::Defer { expression } => {
            lemma_run_self(m);
            lemma_all_runs_one(*expression, m, file, snap, tys, mods);
        },
        ExpressionKind::Select { arms } => {
            lemma_select_runs(arms@, file, snap, tys, mods);
        },
        ExpressionKind::Task { expression } => {
            lemma_run_self(m);
            lemma_all_runs_one(*expression, m, file, snap, tys, mods);
        },
        ExpressionKind::TryBlock { items } => {
            lemma_exprs_runs(items@, file, snap, tys, mods);
        },
        ExpressionKind::RecoverBlock { items } => {
            lemma_exprs_runs(items@, file, snap, tys, mods);
        },
        ExpressionKind::Break { value } => {
            match value {
                Some(v) => {
                    lemma_run_self(m);
                    lemma_all_runs_one(*v, m, file, snap, tys, mods);
                },
                None => {},
            }
        },
        ExpressionKind::Paren { expression } => {
            lemma_run_self(m);
            lemma_all_runs_one(*expression, m, file, snap, tys, mods);
        },
        ExpressionKind::Range { start, end } => {
            let sm = match start {
                Some(s) => expr_marks(*s, file, snap, tys, mods),
                None => Seq::<Mark>::empty(),
            };
            let xm = match end {
                Some(x) => expr_marks(*x, file, snap, tys, mods),
                None => Seq::<Mark>::empty(),
            };
            let op = m.subrange(sm.len() as int, m.len() - xm.len());
            assert(m =~= sm + op + xm);
            lemma_runs3(sm, op, xm);
            let sc = match start {
                Some(s) => seq![*s],
                None => Seq::<Expression>::empty(),
            };
            let xc = match end {
                Some(x) => seq![*x],
                None => Seq::<Expression>::empty(),
            };
            match start {
                Some(s) => {
                    lemma_all_runs_one(*s, m, file, snap, tys, mods);
                },
                None => {},
            }
            match end {
                Some(x) => {
                    lemma_all_runs_one(*x, m, file, snap, tys, mods);
                },
                None => {},
            }
            lemma_all_runs_concat(sc, xc, m, file, snap, tys, mods);
        },
        ExpressionKind::IndexedAccess { expression, index } => {
            lemma_runs2(expr_marks(*expression, file, snap, tys, mods), expr_marks(*index, file, snap, tys, mods));
            lemma_all_runs_two(*expression, *index, m, file, snap, tys, mods);
        },
        ExpressionKind::Cast { expression } => {
            lemma_run_self(m);
            lemma_all_runs_one(*expression, m, file, snap, tys, mods);
        },
        ExpressionKind::Loop { body } => {
            lemma_run_self(m);
            lemma_all_runs_one(*body, m, file, snap, tys, mods);
        },
        ExpressionKind::Propagate { expression } => {
            let em = expr_marks(*expression, file, snap, tys, mods);
            let op = m.subrange(em.len() as int, m.len() as int);
            assert(m =~= em + op);
            lemma_runs2(em, op);
            lemma_all_runs_one(*expression, m, file, snap, tys, mods);
        },
        ExpressionKind::Reference { expression } => {
            lemma_run_self(m);
            lemma_all_runs_one(*expression, m, file, snap, tys, mods);
        },
        ExpressionKind::Assignment { target, value } => {
            let op = crate::highlight::trimmed_operator_marks(text, crate::highlight::span_end(target.span), value.span.byte_offset as int, span.file_id, tys);
            lemma_runs3(expr_marks(*target, file, snap, tys, mods), op, expr_marks(*value, file, snap, tys, mods));
            lemma_all_runs_two(*target, *value, m, file, snap, tys, mods);
        },
        ExpressionKind::Literal { literal } => {
            match literal {
                Literal::FormatString(parts) => {
                    let pm = format_parts_marks(parts@, file, snap, tys, mods);
                    let head = m.subrange(0, m.len() - pm.len());
                    assert(m =~= head + pm);
                    lemma_parts_runs(parts@, file, snap, tys, mods);
                    lemma_all_runs_widen(part_children(parts@), head, pm, file, snap, tys, mods);
                },
                Literal::Slice(elements) => {
                    lemma_exprs_runs(elements@, file, snap, tys, mods);
                },
                _ => {},
            }
        },
        _ => {},
    }
}

// ------------------------------------------------------------ leaf tokens

/// A name is highlighted by what it resolves to, at its own span and with no
/// modifier: a qualified name, or failing that an unbound name looked up
/// under the file's module, by the definition it names (see
/// `lemma_definition_kind`); otherwise a local binding as a parameter or a
/// variable; a name that resolves to nothing gets no token.
pub proof fn lemma_identifier_kind(
    e: Expression,
    file: File,
    snap: AnalysisSnapshot,
    tys: Seq<TokenType>,
    mods: Seq<TokenModifier>,
)
    requires
        tys.len() <= 0x1_0000_0000,
        tys.contains(TokenType::Parameter),
        tys.contains(TokenType::Variable),
    ensures
        e.kind matches ExpressionKind::Identifier { qualified: Some(q), .. } ==> (
        snap.definitions.lookup(q@) matches Some(def) ==> expr_marks(e, file, snap, tys, mods)
            == seq![(Mark { span: e.span, token_type: definition_token_type(def, tys), modifiers: 0 })]),
        e.kind matches ExpressionKind::Identifier { qualified: None, binding_id: None, value } ==> (
        snap.definitions.lookup(qualify(file.module_id@, value@)) matches Some(def)
            ==> expr_marks(e, file, snap, tys, mods)
            == seq![(Mark { span: e.span, token_type: definition_token_type(def, tys), modifiers: 0 })]),
        e.kind matches ExpressionKind::Identifier { qualified, binding_id: Some(id), .. } ==> ((
        qualified is None || snap.definitions.lookup(qualified->0@) is None)
            && snap.bindings@.contains_key(id) ==> only_mark_names(
            expr_marks(e, file, snap, tys, mods),
            e.span,
            tys,
            if snap.bindings@[id].is_param { TokenType::Parameter } else { TokenType::Variable },
        ) && expr_marks(e, file, snap, tys, mods)[0].modifiers == 0),
        e.kind matches ExpressionKind::Identifier { qualified, binding_id: Some(id), .. } ==> ((
        qualified is None || snap.definitions.lookup(qualified->0@) is None)
            && !snap.bindings@.contains_key(id) ==> expr_marks(e, file, snap, tys, mods).len() == 0),
        e.kind matches ExpressionKind::Identifier { qualified, binding_id: None, value } ==> ((
        qualified is Some ==> snap.definitions.lookup(qualified->0@) is None) && (qualified is None
            ==> snap.definitions.lookup(qualify(file.module_id@, value@)) is None)
            ==> expr_marks(e, file, snap, tys, mods).len() == 0),
{
    reveal(expr_marks);
    lemma_type_index(tys, TokenType::Parameter);
    lemma_type_index(tys, TokenType::Variable);
    match e.kind {
        ExpressionKind::Identifier { value, qualified, binding_id } => {
            assert(expr_marks(e, file, snap, tys, mods) == crate::highlight::identifier_marks(
                e.span,
                value,
                qualified,
                binding_id,
                file,
                snap,
                tys,
            ));
        },
        _ => {},
    }
}

/// A literal is highlighted at its span with no modifier: a number as a
/// number, a string or character as a string, a boolean as a keyword; a
/// format string is a string first, then what it interpolates.
pub proof fn lemma_literal_kind(
    e: Expression,
    file: File,
    snap: AnalysisSnapshot,
    tys: Seq<TokenType>,
    mods: Seq<TokenModifier>,
)
    requires
        tys.len() <= 0x1_0000_0000,
        tys.contains(TokenType::Number),
        tys.contains(TokenType::StringLit),
        tys.contains(TokenType::Keyword),
    ensures
        e.kind matches ExpressionKind::Literal { literal }
            && (literal is Integer || literal is Float || literal is Imaginary) ==> only_mark_names(
            expr_marks(e, file, snap, tys, mods),
            e.span,
            tys,
            TokenType::Number,
        ) && expr_marks(e, file, snap, tys, mods)[0].modifiers == 0,
        e.kind matches ExpressionKind::Literal { literal } && (literal is Str || literal is Char)
            ==> only_mark_names(expr_marks(e, file, snap, tys, mods), e.span, tys, TokenType::StringLit)
            && expr_marks(e, file, snap, tys, mods)[0].modifiers == 0,
        e.kind matches ExpressionKind::Literal { literal } && literal is Boolean ==> only_mark_names(
            expr_marks(e, file, snap, tys, mods),
            e.span,
            tys,
            TokenType::Keyword,
        ) && expr_marks(e, file, snap, tys, mods)[0].modifiers == 0,
        e.kind matches ExpressionKind::Literal { literal } && literal is FormatString
            ==> first_mark_names(expr_marks(e, file, snap, tys, mods), e.span, tys, TokenType::StringLit)
            && expr_marks(e, file, snap, tys, mods)[0].modifiers == 0,
{
    reveal(expr_marks);
    lemma_type_index(tys, TokenType::Number);
    lemma_type_index(tys, TokenType::StringLit);
    lemma_type_index(tys, TokenType::Keyword);
    match e.kind {
        ExpressionKind::Literal { literal } => match literal {
            Literal::FormatString(parts) => {
                let head = crate::highlight::one(e.span, crate::highlight::tok(tys, TokenType::StringLit), 0);
                assert(expr_marks(e, file, snap, tys, mods)[0] == head[0]);
            },
            _ => {},
        },
        _ => {},
    }
}

// ------------------------------------------------ patterns in expressions

/// The patterns that an expression binds names with, apart from
/// parameters: those of `let`, `for`, `if let`, `while let` and the arms of
/// a match.
pub open spec fn bound_patterns(e: Expression) -> Seq<Pattern> {
    match e.kind {
        ExpressionKind::Let { binding, .. } => seq![binding.pattern],
        ExpressionKind::For { binding, .. } => seq![binding.pattern],
        ExpressionKind::IfLet { pattern, .. } => seq![pattern],
        ExpressionKind::WhileLet { pattern, .. } => seq![pattern],
        ExpressionKind::Match { arms } => arm_patterns(arms@),
        _ => Seq::empty(),
    }
}

/// The patterns of match arms.
pub open spec fn arm_patterns(arms: Seq<MatchArm>) -> Seq<Pattern>
    decreases arms.len(),
{
    if arms.len() == 0 {
        Seq::empty()
    } else {
        arm_patterns(arms.drop_last()) + seq![arms.last().pattern]
    }
}

proof fn lemma_arm_patterns_runs(arms: Seq<MatchArm>, file: File, snap: AnalysisSnapshot, tys: Seq<TokenType>, mods: Seq<TokenModifier>)
    ensures
        forall|i: int| 0 <= i < arm_patterns(arms).len() ==> is_run(
            pattern_marks(#[trigger] arm_patterns(arms)[i], tys, mods),
            arms_marks(arms, file, snap, tys, mods),
        ),
    decreases arms.len(),
{
    reveal(expr_marks);
    if arms.len() > 0 {
        let init = arms.drop_last();
        let last = arms.last();
        lemma_arm_patterns_runs(init, file, snap, tys, mods);
        let a = arms_marks(init, file, snap, tys, mods);
        let pm = pattern_marks(last.pattern, tys, mods);
        let gm = match last.guard {
            Some(g) => expr_marks(*g, file, snap, tys, mods),
            None => Seq::<Mark>::empty(),
        };
        let em = expr_marks(*last.expression, file, snap, tys, mods);
        assert(crate::highlight::arm_marks(last, file, snap, tys, mods) == pm + gm + em);
        assert(arms_marks(arms, file, snap, tys, mods) == a + (pm + gm + em));
        lemma_runs3(pm, gm, em);
        lemma_run_right(pm, a, pm + gm + em);
        assert forall|i: int| 0 <= i < arm_patterns(arms).len() implies is_run(
            pattern_marks(#[trigger] arm_patterns(arms)[i], tys, mods),
            arms_marks(arms, file, snap, tys, mods),
        ) by {
            if i < arm_patterns(init).len() {
                assert(arm_patterns(arms)[i] == arm_patterns(init)[i]);
                lemma_run_left(pattern_marks(arm_patterns(init)[i], tys, mods), a, pm + gm + em);
            } else {
                assert(arm_patterns(arms)[i] == last.pattern);
            }
        }
    }
}

/// Every pattern an expression binds with is highlighted in it: its tokens
/// stand as a run among the expression's tokens (see
/// `lemma_pattern_heads` for what they are).
pub proof fn lemma_bound_patterns_runs(
    e: Expression,
    file: File,
    snap: AnalysisSnapshot,
    tys: Seq<TokenType>,
    mods: Seq<TokenModifier>,
)
    ensures
        forall|i: int| 0 <= i < bound_patterns(e).len() ==> is_run(
            pattern_marks(#[trigger] bound_patterns(e)[i], tys, mods),
            expr_marks(e, file, snap, tys, mods),
        ),
{
    reveal(expr_marks);
    match e.kind {
        ExpressionKind::Let { binding, value } => {
            lemma_runs2(pattern_marks(binding.pattern, tys, mods), expr_marks(*value, file, snap, tys, mods));
        },
        ExpressionKind::For { binding, iterable, body } => {
            lemma_runs3(pattern_marks(binding.pattern, tys, mods), expr_marks(*iterable, file, snap, tys, mods), expr_marks(*body, file, snap, tys, mods));
        },
        ExpressionKind::IfLet { pattern, scrutinee, consequence, alternative } => {
            lemma_runs4(pattern_marks(pattern, tys, mods), expr_marks(*scrutinee, file, snap, tys, mods), expr_marks(*consequence, file, snap, tys, mods), expr_marks(*alternative, file, snap, tys, mods));
        },
        ExpressionKind::WhileLet { pattern, scrutinee, body } => {
            lemma_runs3(pattern_marks(pattern, tys, mods), expr_marks(*scrutinee, file, snap, tys, mods), expr_marks(*body, file, snap, tys, mods));
        },
        ExpressionKind::Match { arms } => {
            lemma_arm_patterns_runs(arms@, file, snap, tys, mods);
        },
        _ => {},
    }
}

/// The parameters of a function or lambda.
pub open spec fn params_of(e: Expression) -> Seq<Binding> {
    match e.kind {
        ExpressionKind::Function { params, .. } => params@,
        ExpressionKind::Lambda { params, .. } => params@,
        _ => Seq::empty(),
    }
}

proof fn lemma_params_runs(bs: Seq<Binding>, tys: Seq<TokenType>, mods: Seq<TokenModifier>)
    ensures
        forall|i: int| 0 <= i < bs.len() ==> is_run(
            crate::highlight::param_marks(#[trigger] bs[i].pattern, tys, mods),
            crate::highlight::params_marks(bs, tys, mods),
        ),
    decreases bs.len(),
{
    if bs.len() > 0 {
        let init = bs.drop_last();
        lemma_params_runs(init, tys, mods);
        let a = crate::highlight::params_marks(init, tys, mods);
        let b = crate::highlight::param_marks(bs.last().pattern, tys, mods);
        lemma_runs2(a, b);
        assert forall|i: int| 0 <= i < bs.len() implies is_run(
            crate::highlight::param_marks(#[trigger] bs[i].pattern, tys, mods),
            crate::highlight::params_marks(bs, tys, mods),
        ) by {
            if i < init.len() {
                assert(bs[i] == init[i]);
                lemma_run_left(crate::highlight::param_marks(init[i].pattern, tys, mods), a, b);
            }
        }
    }
}

/// Every parameter of a function or lambda is highlighted in it: one named
/// directly is a declared parameter at its span; the tokens of any other
/// parameter pattern (see `lemma_pattern_heads`) stand as a run among the
/// expression's tokens.
pub proof fn lemma_parameters(
    e: Expression,
    file: File,
    snap: AnalysisSnapshot,
    tys: Seq<TokenType>,
    mods: Seq<TokenModifier>,
)
    requires
        tys.len() <= 0x1_0000_0000,
        tys.contains(TokenType::Parameter),
        mods.len() <= 32,
        mods.contains(TokenModifier::Declaration),
    ensures
        forall|i: int| 0 <= i < params_of(e).len() ==> ((#[trigger] params_of(e)[i]).pattern matches Pattern::Identifier { span } ==> exists|j: int|
            0 <= j < expr_marks(e, file, snap, tys, mods).len()
                && expr_marks(e, file, snap, tys, mods)[j].span == span
                && tys[expr_marks(e, file, snap, tys, mods)[j].token_type as int] == TokenType::Parameter
                && carries(mods, expr_marks(e, file, snap, tys, mods)[j].modifiers, TokenModifier::Declaration)),
        forall|i: int| 0 <= i < params_of(e).len() && !(params_of(e)[i].pattern is Identifier) ==> is_run(
            pattern_marks((#[trigger] params_of(e)[i]).pattern, tys, mods),
            expr_marks(e, file, snap, tys, mods),
        ),
{
    reveal(expr_marks);
    lemma_type_index(tys, TokenType::Parameter);
    let d = seq![TokenModifier::Declaration];
    assert(mods.contains(d[0]));
    lemma_carries(mods, d, 0);
    let m = expr_marks(e, file, snap, tys, mods);
    let ps = params_of(e);
    let pm = crate::highlight::params_marks(ps, tys, mods);
    match e.kind {
        ExpressionKind::Function { name_span, params, body } => {
            let head = crate::highlight::one(name_span, crate::highlight::tok(tys, TokenType::Function), crate::highlight::decl_bits(mods));
            lemma_runs3(head, pm, expr_marks(*body, file, snap, tys, mods));
        },
        ExpressionKind::Lambda { params, body } => {
            lemma_runs2(pm, expr_marks(*body, file, snap, tys, mods));
        },
        _ => {},
    }
    lemma_params_runs(ps, tys, mods);
    assert forall|i: int| 0 <= i < ps.len() implies is_run(crate::highlight::param_marks(#[trigger] ps[i].pattern, tys, mods), m) by {
        lemma_run_within_run(crate::highlight::param_marks(ps[i].pattern, tys, mods), pm, m);
    }
    assert forall|i: int| 0 <= i < ps.len() implies ((#[trigger] ps[i]).pattern matches Pattern::Identifier { span } ==> exists|j: int|
        0 <= j < m.len() && m[j].span == span && tys[m[j].token_type as int] == TokenType::Parameter
            && carries(mods, m[j].modifiers, TokenModifier::Declaration)) by {
        match ps[i].pattern {
            Pattern::Identifier { span } => {
                let x = crate::highlight::param_marks(ps[i].pattern, tys, mods);
                assert(x == crate::highlight::one(span, crate::highlight::tok(tys, TokenType::Parameter), crate::highlight::decl_bits(mods)));
                assert(is_run(x, m));
                let k = choose|k: int| 0 <= k && k + x.len() <= m.len() && #[trigger] m.subrange(k, k + x.len()) == x;
                assert(m[k] == m.subrange(k, k + x.len())[0]);
                assert(m[k] == x[0]);
            },
            _ => {},
        }
    }
}

/// A run of a run of `big` is a run of `big`.
proof fn lemma_run_within_run(x: Seq<Mark>, mid: Seq<Mark>, big: Seq<Mark>)
    requires
        is_run(x, mid),
        is_run(mid, big),
    ensures
        is_run(x, big),
{
    let k1 = choose|k: int| 0 <= k && k + x.len() <= mid.len() && #[trigger] mid.subrange(k, k + x.len()) == x;
    let k2 = choose|k: int| 0 <= k && k + mid.len() <= big.len() && #[trigger] big.subrange(k, k + mid.len()) == mid;
    assert(big.subrange(k2 + k1, k2 + k1 + x.len()) =~= x);
}

// --------------------------------------------------------------- operators

/// `m` is an operator token over exactly the text between `from` and `to`
/// with its white space trimmed away.
pub open spec fn operator_over(m: Mark, text: Seq<u8>, from: int, to: int, file_id: u32, tys: Seq<TokenType>) -> bool {
    &&& m.span.file_id == file_id
    &&& !m.span.dummy
    &&& from <= m.span.byte_offset
    &&& m.span.byte_offset + m.span.byte_length <= to
    &&& text.subrange(m.span.byte_offset as int, m.span.byte_offset + m.span.byte_length)
        == trimmed(text.subrange(from, to))
    &&& tys[m.token_type as int] == TokenType::Operator
    &&& m.modifiers == 0
}

/// `ms` holds an operator token over the text between `from` and `to`.
pub open spec fn has_operator(ms: Seq<Mark>, text: Seq<u8>, from: int, to: int, file_id: u32, tys: Seq<TokenType>) -> bool {
    exists|j: int| 0 <= j < ms.len() && operator_over(#[trigger] ms[j], text, from, to, file_id, tys)
}

proof fn lemma_trimmed_operator(text: Seq<u8>, from: int, to: int, file_id: u32, tys: Seq<TokenType>)
    requires
        0 <= from < to <= text.len(),
        to <= u32::MAX,
        trimmed(text.subrange(from, to)).len() > 0,
        tys.len() <= 0x1_0000_0000,
        tys.contains(TokenType::Operator),
    ensures
        has_operator(crate::highlight::trimmed_operator_marks(text, from, to, file_id, tys), text, from, to, file_id, tys),
{
    let sub = text.subrange(from, to);
    lemma_leading_ws_bound(sub);
    let rest = sub.skip(leading_ws(sub) as int);
    lemma_trailing_ws_bound(rest);
    lemma_type_index(tys, TokenType::Operator);
    let ms = crate::highlight::trimmed_operator_marks(text, from, to, file_id, tys);
    let off = from + leading_ws(sub);
    let len = trimmed(sub).len();
    assert(ms[0].span.byte_offset == off);
    assert(ms[0].span.byte_length == len);
    assert(text.subrange(off, off + len) =~= trimmed(sub));
    assert(operator_over(ms[0], text, from, to, file_id, tys));
}

proof fn lemma_operator_in(x: Seq<Mark>, big: Seq<Mark>, text: Seq<u8>, from: int, to: int, file_id: u32, tys: Seq<TokenType>)
    requires
        has_operator(x, text, from, to, file_id, tys),
        is_run(x, big),
    ensures
        has_operator(big, text, from, to, file_id, tys),
{
    let j = choose|j: int| 0 <= j < x.len() && operator_over(#[trigger] x[j], text, from, to, file_id, tys);
    let k = choose|k: int| 0 <= k && k + x.len() <= big.len() && #[trigger] big.subrange(k, k + x.len()) == x;
    assert(big[k + j] == big.subrange(k, k + x.len())[j]);
    assert(operator_over(big[k + j], text, from, to, file_id, tys));
}

/// The operator between the operands of a binary expression or an
/// assignment, and before the operand of a unary expression, is highlighted
/// over exactly its text, white space trimmed, wherever there is such text.
pub proof fn lemma_operators(
    e: Expression,
    file: File,
    snap: AnalysisSnapshot,
    tys: Seq<TokenType>,
    mods: Seq<TokenModifier>,
)
    requires
        tys.len() <= 0x1_0000_0000,
        tys.contains(TokenType::Operator),
    ensures
        e.kind matches ExpressionKind::Binary { left, right } ==> ({
            let text = crate::highlight::source_bytes(file);
            let from = left.span.byte_offset + left.span.byte_length;
            let to = right.span.byte_offset as int;
            from < to <= text.len() && trimmed(text.subrange(from, to)).len() > 0
                ==> has_operator(expr_marks(e, file, snap, tys, mods), text, from, to, e.span.file_id, tys)
        }),
        e.kind matches ExpressionKind::Assignment { target, value } ==> ({
            let text = crate::highlight::source_bytes(file);
            let from = target.span.byte_offset + target.span.byte_length;
            let to = value.span.byte_offset as int;
            from < to <= text.len() && trimmed(text.subrange(from, to)).len() > 0
                ==> has_operator(expr_marks(e, file, snap, tys, mods), text, from, to, e.span.file_id, tys)
        }),
        e.kind matches ExpressionKind::Unary { expression } ==> ({
            let text = crate::highlight::source_bytes(file);
            let from = e.span.byte_offset as int;
            let to = expression.span.byte_offset as int;
            from < to <= text.len() && trimmed(text.subrange(from, to)).len() > 0
                ==> has_operator(expr_marks(e, file, snap, tys, mods), text, from, to, e.span.file_id, tys)
        }),
{
    let text = crate::highlight::source_bytes(file);
    let m = expr_marks(e, file, snap, tys, mods);
    match e.kind {
        ExpressionKind::Binary { left, right } => {
            let from = left.span.byte_offset + left.span.byte_length;
            let to = right.span.byte_offset as int;
            if from < to <= text.len() && trimmed(text.subrange(from, to)).len() > 0 {
                let op = crate::highlight::trimmed_operator_marks(text, from, to, e.span.file_id, tys);
                lemma_trimmed_operator(text, from, to, e.span.file_id, tys);
                assert(m == expr_marks(*left, file, snap, tys, mods) + op + expr_marks(*right, file, snap, tys, mods)) by {
                    reveal(expr_marks);
                }
                lemma_runs3(expr_marks(*left, file, snap, tys, mods), op, expr_marks(*right, file, snap, tys, mods));
                lemma_operator_in(op, m, text, from, to, e.span.file_id, tys);
            }
        },
        ExpressionKind::Assignment { target, value } => {
            let from = target.span.byte_offset + target.span.byte_length;
            let to = value.span.byte_offset as int;
            if from < to <= text.len() && trimmed(text.subrange(from, to)).len() > 0 {
                let op = crate::highlight::trimmed_operator_marks(text, from, to, e.span.file_id, tys);
                lemma_trimmed_operator(text, from, to, e.span.file_id, tys);
                assert(m == expr_marks(*target, file, snap, tys, mods) + op + expr_marks(*value, file, snap, tys, mods)) by {
                    reveal(expr_marks);
                }
                lemma_runs3(expr_marks(*target, file, snap, tys, mods), op, expr_marks(*value, file, snap, tys, mods));
                lemma_operator_in(op, m, text, from, to, e.span.file_id, tys);
            }
        },
        ExpressionKind::Unary { expression } => {
            let from = e.span.byte_offset as int;
            let to = expression.span.byte_offset as int;
            if from < to <= text.len() && trimmed(text.subrange(from, to)).len() > 0 {
                let op = crate::highlight::trimmed_operator_marks(text, from, to, e.span.file_id, tys);
                lemma_trimmed_operator(text, from, to, e.span.file_id, tys);
                assert(m == op + expr_marks(*expression, file, snap, tys, mods)) by {
                    reveal(expr_marks);
                }
                lemma_runs2(op, expr_marks(*expression, file, snap, tys, mods));
                lemma_operator_in(op, m, text, from, to, e.span.file_id, tys);
            }
        },
        _ => {},
    }
}

// ------------------------------------------------------- declared members

/// `ms` holds a token at `span` naming `t` and carrying the declaration
/// modifier.
pub open spec fn has_declared(ms: Seq<Mark>, span: Span, tys: Seq<TokenType>, mods: Seq<TokenModifier>, t: TokenType) -> bool {
    exists|j: int|
        0 <= j < ms.len() && (#[trigger] ms[j]).span == span && tys[ms[j].token_type as int] == t
            && carries(mods, ms[j].modifiers, TokenModifier::Declaration)
}

proof fn lemma_has_declared_in(x: Seq<Mark>, big: Seq<Mark>, span: Span, tys: Seq<TokenType>, mods: Seq<TokenModifier>, t: TokenType)
    requires
        has_declared(x, span, tys, mods, t),
        is_run(x, big),
    ensures
        has_declared(big, span, tys, mods, t),
{
    let j = choose|j: int|
        0 <= j < x.len() && (#[trigger] x[j]).span == span && tys[x[j].token_type as int] == t
            && carries(mods, x[j].modifiers, TokenModifier::Declaration);
    let k = choose|k: int| 0 <= k && k + x.len() <= big.len() && #[trigger] big.subrange(k, k + x.len()) == x;
    assert(big[k + j] == big.subrange(k, k + x.len())[j]);
}

proof fn lemma_method_names(ms: Seq<Expression>, file: File, snap: AnalysisSnapshot, tys: Seq<TokenType>, mods: Seq<TokenModifier>)
    requires
        tys.len() <= 0x1_0000_0000,
        tys.contains(TokenType::Method),
        mods.len() <= 32,
        mods.contains(TokenModifier::Declaration),
    ensures
        forall|i: int| 0 <= i < ms.len() ==> ((#[trigger] ms[i]).kind matches ExpressionKind::Function { name_span, .. }
            ==> has_declared(methods_marks(ms, file, snap, tys, mods), name_span, tys, mods, TokenType::Method)),
    decreases ms.len(),
{
    reveal(expr_marks);
    if ms.len() > 0 {
        let init = ms.drop_last();
        let last = ms.last();
        lemma_method_names(init, file, snap, tys, mods);
        let a = methods_marks(init, file, snap, tys, mods);
        let b = methods_marks(ms, file, snap, tys, mods).subrange(a.len() as int, methods_marks(ms, file, snap, tys, mods).len() as int);
        assert(methods_marks(ms, file, snap, tys, mods) =~= a + b);
        lemma_runs2(a, b);
        assert forall|i: int| 0 <= i < ms.len() implies ((#[trigger] ms[i]).kind matches ExpressionKind::Function { name_span, .. }
            ==> has_declared(methods_marks(ms, file, snap, tys, mods), name_span, tys, mods, TokenType::Method)) by {
            match ms[i].kind {
                ExpressionKind::Function { name_span, params, body } => {
                    if i < init.len() {
                        assert(ms[i] == init[i]);
                        lemma_has_declared_in(a, a + b, name_span, tys, mods, TokenType::Method);
                    } else {
                        lemma_type_index(tys, TokenType::Method);
                        let d = seq![TokenModifier::Declaration];
                        assert(mods.contains(d[0]));
                        lemma_carries(mods, d, 0);
                        let head = crate::highlight::one(name_span, crate::highlight::tok(tys, TokenType::Method), crate::highlight::decl_bits(mods));
                        let pm = crate::highlight::params_marks(params@, tys, mods);
                        let bm = expr_marks(*body, file, snap, tys, mods);
                        assert(b == head + pm + bm);
                        assert(head[0].span == name_span);
                        assert(has_declared(head, name_span, tys, mods, TokenType::Method));
                        lemma_runs3(head, pm, bm);
                        lemma_has_declared_in(head, b, name_span, tys, mods, TokenType::Method);
                        lemma_has_declared_in(b, a + b, name_span, tys, mods, TokenType::Method);
                    }
                },
                _ => {},
            }
        }
    }
}

/// Each function directly inside an impl block is highlighted as a declared
/// method at its name.
pub proof fn lemma_impl_methods(
    e: Expression,
    file: File,
    snap: AnalysisSnapshot,
    tys: Seq<TokenType>,
    mods: Seq<TokenModifier>,
)
    requires
        tys.len() <= 0x1_0000_0000,
        tys.contains(TokenType::Method),
        mods.len() <= 32,
        mods.contains(TokenModifier::Declaration),
    ensures
        e.kind matches ExpressionKind::ImplBlock { methods } ==> forall|i: int| 0 <= i < methods@.len()
            ==> ((#[trigger] methods@[i]).kind matches ExpressionKind::Function { name_span, .. }
            ==> has_declared(expr_marks(e, file, snap, tys, mods), name_span, tys, mods, TokenType::Method)),
{
    match e.kind {
        ExpressionKind::ImplBlock { methods } => {
            assert(expr_marks(e, file, snap, tys, mods) == methods_marks(methods@, file, snap, tys, mods)) by {
                reveal(expr_marks);
            }
            lemma_method_names(methods@, file, snap, tys, mods);
        },
        _ => {},
    }
}

/// A struct literal highlights its constructor's name first: as an enum
/// member when it names a variant, as a function otherwise. An import
/// highlights the imported name first, as a namespace with no modifier, and
/// then its alias, if any, as a declared namespace.
pub proof fn lemma_constructors_and_imports(
    e: Expression,
    file: File,
    snap: AnalysisSnapshot,
    tys: Seq<TokenType>,
    mods: Seq<TokenModifier>,
)
    requires
        tys.len() <= 0x1_0000_0000,
        tys.contains(TokenType::EnumMember),
        tys.contains(TokenType::Function),
        tys.contains(TokenType::Namespace),
        mods.len() <= 32,
        mods.contains(TokenModifier::Declaration),
    ensures
        e.kind matches ExpressionKind::StructCall { name_span, variant, .. } ==> first_mark_names(
            expr_marks(e, file, snap, tys, mods),
            name_span,
            tys,
            if variant { TokenType::EnumMember } else { TokenType::Function },
        ) && expr_marks(e, file, snap, tys, mods)[0].modifiers == 0,
        e.kind matches ExpressionKind::ModuleImport { name_span, .. } ==> first_mark_names(
            expr_marks(e, file, snap, tys, mods),
            name_span,
            tys,
            TokenType::Namespace,
        ) && expr_marks(e, file, snap, tys, mods)[0].modifiers == 0,
        e.kind matches ExpressionKind::ModuleImport { alias: Some(alias), .. } ==> ({
            let ms = expr_marks(e, file, snap, tys, mods);
            let span = match alias {
                crate::ast::ImportAlias::Named { span } => span,
                crate::ast::ImportAlias::Blank { span } => span,
            };
            ms.len() == 2 && ms[1].span == span && tys[ms[1].token_type as int] == TokenType::Namespace
                && carries(mods, ms[1].modifiers, TokenModifier::Declaration)
        }),
{
    lemma_type_index(tys, TokenType::EnumMember);
    lemma_type_index(tys, TokenType::Function);
    lemma_type_index(tys, TokenType::Namespace);
    let d = seq![TokenModifier::Declaration];
    assert(mods.contains(d[0]));
    lemma_carries(mods, d, 0);
    let m = expr_marks(e, file, snap, tys, mods);
    match e.kind {
        ExpressionKind::StructCall { name_span, variant, field_values } => {
            let t = if variant { TokenType::EnumMember } else { TokenType::Function };
            let head = crate::highlight::one(name_span, crate::highlight::tok(tys, t), 0);
            assert(m == head + exprs_marks(field_values@, file, snap, tys, mods)) by {
                reveal(expr_marks);
            }
            assert(m[0] == head[0]);
        },
        ExpressionKind::ModuleImport { name_span, alias } => {
            let head = crate::highlight::one(name_span, crate::highlight::tok(tys, TokenType::Namespace), 0);
            let am = match alias {
                Some(crate::ast::ImportAlias::Named { span }) => crate::highlight::one(span, crate::highlight::tok(tys, TokenType::Namespace), crate::highlight::decl_bits(mods)),
                Some(crate::ast::ImportAlias::Blank { span }) => crate::highlight::one(span, crate::highlight::tok(tys, TokenType::Namespace), crate::highlight::decl_bits(mods)),
                None => Seq::<Mark>::empty(),
            };
            assert(m == head + am) by {
                reveal(expr_marks);
            }
            assert(m[0] == head[0]);
            if alias is Some {
                assert(m[1] == am[0]);
            }
        },
        _ => {},
    }
}

// --------------------------------------------------------------- the file

/// The comment tokens of a file: one per comment, at its span.
proof fn lemma_comment_runs(file_id: u32, cs: Seq<(u32, u32)>, t: u32, bits: u32)
    ensures
        forall|i: int| 0 <= i < cs.len() ==> is_run(
            crate::highlight::one(
                (Span { file_id, byte_offset: (#[trigger] cs[i]).0, byte_length: cs[i].1, dummy: false }),
                t,
                bits,
            ),
            crate::highlight::comment_marks(file_id, cs, t, bits),
        ),
    decreases cs.len(),
{
    if cs.len() > 0 {
        let init = cs.drop_last();
        lemma_comment_runs(file_id, init, t, bits);
        let a = crate::highlight::comment_marks(file_id, init, t, bits);
        let c = cs.last();
        let b = crate::highlight::one(Span { file_id, byte_offset: c.0, byte_length: c.1, dummy: false }, t, bits);
        lemma_runs2(a, b);
        assert forall|i: int| 0 <= i < cs.len() implies is_run(
            crate::highlight::one(
                (Span { file_id, byte_offset: (#[trigger] cs[i]).0, byte_length: cs[i].1, dummy: false }),
                t,
                bits,
            ),
            crate::highlight::comment_marks(file_id, cs, t, bits),
        ) by {
            if i < init.len() {
                assert(cs[i] == init[i]);
                lemma_run_left(crate::highlight::one(Span { file_id, byte_offset: init[i].0, byte_length: init[i].1, dummy: false }, t, bits), a, b);
            }
        }
    }
}

/// A file highlights everything each of its items highlights, as a run
/// among its tokens, and every comment as a comment at its span: ordinary
/// comments with no modifier, doc comments as documentation.
pub proof fn lemma_file_marks(file: File, snap: AnalysisSnapshot)
    ensures
        all_runs(
            file.items@,
            crate::highlight::file_marks(file, snap),
            file,
            snap,
            crate::highlight::token_type_legend(),
            crate::highlight::token_modifier_legend(),
        ),
        forall|i: int| 0 <= i < snap.comments@.len() ==> exists|j: int|
            0 <= j < crate::highlight::file_marks(file, snap).len()
                && crate::highlight::file_marks(file, snap)[j].span == (Span {
                    file_id: file.id,
                    byte_offset: (#[trigger] snap.comments@[i]).0,
                    byte_length: snap.comments@[i].1,
                    dummy: false,
                })
                && crate::highlight::token_type_legend()[crate::highlight::file_marks(file, snap)[j].token_type as int] == TokenType::Comment
                && crate::highlight::file_marks(file, snap)[j].modifiers == 0,
        forall|i: int| 0 <= i < snap.doc_comments@.len() ==> exists|j: int|
            0 <= j < crate::highlight::file_marks(file, snap).len()
                && crate::highlight::file_marks(file, snap)[j].span == (Span {
                    file_id: file.id,
                    byte_offset: (#[trigger] snap.doc_comments@[i]).0,
                    byte_length: snap.doc_comments@[i].1,
                    dummy: false,
                })
                && crate::highlight::token_type_legend()[crate::highlight::file_marks(file, snap)[j].token_type as int] == TokenType::Comment
                && carries(
                    crate::highlight::token_modifier_legend(),
                    crate::highlight::file_marks(file, snap)[j].modifiers,
                    TokenModifier::Documentation,
                ),
{
    let tys = crate::highlight::token_type_legend();
    let mods = crate::highlight::token_modifier_legend();
    let fm = crate::highlight::file_marks(file, snap);
    let im = exprs_marks(file.items@, file, snap, tys, mods);
    let ct = crate::highlight::tok(tys, TokenType::Comment);
    let db = crate::highlight::doc_bits(mods);
    let cm = crate::highlight::comment_marks(file.id, snap.comments@, ct, 0);
    let dm = crate::highlight::comment_marks(file.id, snap.doc_comments@, ct, db);
    assert(fm == im + cm + dm);
    lemma_runs3(im, cm, dm);
    lemma_exprs_runs(file.items@, file, snap, tys, mods);
    lemma_all_runs_widen(file.items@, im, cm, file, snap, tys, mods);
    lemma_all_runs_widen(file.items@, im + cm, dm, file, snap, tys, mods);
    lemma_type_index(tys, TokenType::Comment);
    assert(tys[12] == TokenType::Comment);
    let o = seq![TokenModifier::Documentation];
    assert(mods[5] == TokenModifier::Documentation);
    assert(mods.contains(o[0]));
    lemma_carries(mods, o, 0);
    lemma_comment_runs(file.id, snap.comments@, ct, 0);
    lemma_comment_runs(file.id, snap.doc_comments@, ct, db);
    assert forall|i: int| 0 <= i < snap.comments@.len() implies exists|j: int|
        0 <= j < fm.len() && fm[j].span == (Span {
            file_id: file.id,
            byte_offset: (#[trigger] snap.comments@[i]).0,
            byte_length: snap.comments@[i].1,
            dummy: false,
        }) && tys[fm[j].token_type as int] == TokenType::Comment && fm[j].modifiers == 0 by {
        let c = snap.comments@[i];
        let x = crate::highlight::one(Span { file_id: file.id, byte_offset: c.0, byte_length: c.1, dummy: false }, ct, 0);
        lemma_run_within_run(x, cm, fm);
        let k = choose|k: int| 0 <= k && k + x.len() <= fm.len() && #[trigger] fm.subrange(k, k + x.len()) == x;
        assert(fm[k] == fm.subrange(k, k + x.len())[0]);
    }
    assert forall|i: int| 0 <= i < snap.doc_comments@.len() implies exists|j: int|
        0 <= j < fm.len() && fm[j].span == (Span {
            file_id: file.id,
            byte_offset: (#[trigger] snap.doc_comments@[i]).0,
            byte_length: snap.doc_comments@[i].1,
            dummy: false,
        }) && tys[fm[j].token_type as int] == TokenType::Comment && carries(mods, fm[j].modifiers, TokenModifier::Documentation) by {
        let c = snap.doc_comments@[i];
        let x = crate::highlight::one(Span { file_id: file.id, byte_offset: c.0, byte_length: c.1, dummy: false }, ct, db);
        lemma_run_within_run(x, dm, fm);
        let k = choose|k: int| 0 <= k && k + x.len() <= fm.len() && #[trigger] fm.subrange(k, k + x.len()) == x;
        assert(fm[k] == fm.subrange(k, k + x.len())[0]);
    }
}

/// `m` is an operator token over the first occurrence of `op` (one or two
/// bytes) in the text between `from` and `to`.
pub open spec fn first_operator_over(m: Mark, op: Seq<u8>, text: Seq<u8>, from: int, to: int, file_id: u32, tys: Seq<TokenType>) -> bool {
    &&& m.span.file_id == file_id
    &&& !m.span.dummy
    &&& m.span.byte_length == op.len()
    &&& from <= m.span.byte_offset
    &&& m.span.byte_offset + op.len() <= to
    &&& text.subrange(m.span.byte_offset as int, m.span.byte_offset + op.len()) == op
    &&& forall|k: int| from <= k < m.span.byte_offset ==> #[trigger] text.subrange(k, k + op.len()) != op
    &&& tys[m.token_type as int] == TokenType::Operator
    &&& m.modifiers == 0
}

/// The `..` of a range and the `?` of a propagation are highlighted as
/// operators, at the first such text after the start bound (or the start of
/// the range) and before the end bound (or its end), and after the operand of
/// the propagation.
pub proof fn lemma_range_and_propagation(
    e: Expression,
    file: File,
    snap: AnalysisSnapshot,
    tys: Seq<TokenType>,
    mods: Seq<TokenModifier>,
)
    requires
        tys.len() <= 0x1_0000_0000,
        tys.contains(TokenType::Operator),
    ensures
        e.kind matches ExpressionKind::Range { start, end } ==> ({
            let text = crate::highlight::source_bytes(file);
            let from = match start {
                Some(s) => s.span.byte_offset + s.span.byte_length,
                None => e.span.byte_offset as int,
            };
            let to = match end {
                Some(x) => x.span.byte_offset as int,
                None => e.span.byte_offset + e.span.byte_length,
            };
            0 <= from < to <= text.len() && to <= u32::MAX && (exists|k: int| from <= k && k + 2 <= to
                && #[trigger] text.subrange(k, k + 2) == seq![0x2Eu8, 0x2Eu8])
                ==> exists|j: int| 0 <= j < expr_marks(e, file, snap, tys, mods).len()
                && first_operator_over(#[trigger] expr_marks(e, file, snap, tys, mods)[j], seq![0x2Eu8, 0x2Eu8], text, from, to, e.span.file_id, tys)
        }),
        e.kind matches ExpressionKind::Propagate { expression } ==> ({
            let text = crate::highlight::source_bytes(file);
            let from = expression.span.byte_offset + expression.span.byte_length;
            let to = e.span.byte_offset + e.span.byte_length;
            0 <= from < to <= text.len() && to <= u32::MAX && (exists|k: int| from <= k < to
                && #[trigger] text.subrange(k, k + 1) == seq![0x3Fu8])
                ==> exists|j: int| 0 <= j < expr_marks(e, file, snap, tys, mods).len()
                && first_operator_over(#[trigger] expr_marks(e, file, snap, tys, mods)[j], seq![0x3Fu8], text, from, to, e.span.file_id, tys)
        }),
{
    let text = crate::highlight::source_bytes(file);
    let m = expr_marks(e, file, snap, tys, mods);
    lemma_type_index(tys, TokenType::Operator);
    match e.kind {
        ExpressionKind::Range { start, end } => {
            let from = match start {
                Some(s) => s.span.byte_offset + s.span.byte_length,
                None => e.span.byte_offset as int,
            };
            let to = match end {
                Some(x) => x.span.byte_offset as int,
                None => e.span.byte_offset + e.span.byte_length,
            };
            let dd = seq![0x2Eu8, 0x2Eu8];
            if 0 <= from < to <= text.len() && to <= u32::MAX && (exists|k: int| from <= k && k + 2 <= to
                && #[trigger] text.subrange(k, k + 2) == dd) {
                let sm = match start {
                    Some(s) => expr_marks(*s, file, snap, tys, mods),
                    None => Seq::<Mark>::empty(),
                };
                let xm = match end {
                    Some(x) => expr_marks(*x, file, snap, tys, mods),
                    None => Seq::<Mark>::empty(),
                };
                let op = crate::highlight::range_operator_marks(text, from, to, e.span.file_id, tys);
                assert(m == sm + op + xm) by {
                    reveal(expr_marks);
                }
                let sub = text.subrange(from, to);
                lemma_find_dot_dot(sub);
                let k0 = choose|k: int| from <= k && k + 2 <= to && #[trigger] text.subrange(k, k + 2) == dd;
                assert(text.subrange(k0, k0 + 2)[0] == text[k0]);
                assert(text.subrange(k0, k0 + 2)[1] == text[k0 + 1]);
                assert(sub[k0 - from] == text[k0] && sub[k0 - from + 1] == text[k0 + 1]);
                assert(dot_dot_at(sub, k0 - from));
                let pos = find_dot_dot(sub)->0;
                assert(sub[pos] == text[from + pos] && sub[pos + 1] == text[from + pos + 1]);
                assert(text.subrange(from + pos, from + pos + 2) =~= dd);
                assert forall|k: int| from <= k < from + pos implies #[trigger] text.subrange(k, k + dd.len()) != dd by {
                    if text.subrange(k, k + dd.len()) == dd {
                        assert(text.subrange(k, k + 2)[0] == text[k]);
                        assert(text.subrange(k, k + 2)[1] == text[k + 1]);
                        assert(sub[k - from] == text[k] && sub[k - from + 1] == text[k + 1]);
                        assert(dot_dot_at(sub, k - from));
                    }
                }
                assert(first_operator_over(op[0], dd, text, from, to, e.span.file_id, tys));
                lemma_runs3(sm, op, xm);
                let k = choose|k: int| 0 <= k && k + op.len() <= m.len() && #[trigger] m.subrange(k, k + op.len()) == op;
                assert(m[k] == m.subrange(k, k + op.len())[0]);
            }
        },
        ExpressionKind::Propagate { expression } => {
            let from = expression.span.byte_offset + expression.span.byte_length;
            let to = e.span.byte_offset + e.span.byte_length;
            let q = seq![0x3Fu8];
            if 0 <= from < to <= text.len() && to <= u32::MAX && (exists|k: int| from <= k < to
                && #[trigger] text.subrange(k, k + 1) == q) {
                let em = expr_marks(*expression, file, snap, tys, mods);
                let op = crate::highlight::propagate_operator_marks(text, from, to, e.span.file_id, tys);
                assert(m == em + op) by {
                    reveal(expr_marks);
                }
                let sub = text.subrange(from, to);
                lemma_first_index_of(sub, 0x3Fu8);
                let k0 = choose|k: int| from <= k < to && #[trigger] text.subrange(k, k + 1) == q;
                assert(text.subrange(k0, k0 + 1)[0] == text[k0]);
                assert(sub[k0 - from] == text[k0]);
                let pos = first_index_of(sub, 0x3Fu8)->0;
                assert(sub[pos] == text[from + pos]);
                assert(text.subrange(from + pos, from + pos + 1) =~= q);
                assert forall|k: int| from <= k < from + pos implies #[trigger] text.subrange(k, k + q.len()) != q by {
                    if text.subrange(k, k + q.len()) == q {
                        assert(text.subrange(k, k + 1)[0] == text[k]);
                        assert(sub[k - from] == text[k]);
                    }
                }
                assert(first_operator_over(op[0], q, text, from, to, e.span.file_id, tys));
                lemma_runs2(em, op);
                let k = choose|k: int| 0 <= k && k + op.len() <= m.len() && #[trigger] m.subrange(k, k + op.len()) == op;
                assert(m[k] == m.subrange(k, k + op.len())[0]);
            }
        },
        _ => {},
    }
}

/// The member of `receiver.member` is highlighted, after everything in the
/// receiver, over the last bytes of the access, as many as the member's
/// name has in UTF-8, with the type that the receiver's type decides (see
/// `lemma_member_kind`) and no modifier; an access no longer than the name
/// highlights only its receiver. (Offsets past 32 bits are left out: the walk
/// does not run on them, see `expr_ok`.)
pub proof fn lemma_member_access(
    e: Expression,
    file: File,
    snap: AnalysisSnapshot,
    tys: Seq<TokenType>,
    mods: Seq<TokenModifier>,
)
    ensures
        e.kind matches ExpressionKind::DotAccess { expression, member, receiver_type } ==> ({
            let m = expr_marks(e, file, snap, tys, mods);
            let inner = expr_marks(*expression, file, snap, tys, mods);
            let name_len = crate::highlight::byte_len_u32(member);
            &&& e.span.byte_length <= name_len ==> m == inner
            &&& e.span.byte_length > name_len && e.span.byte_offset + e.span.byte_length <= u32::MAX ==> {
                &&& m.len() == inner.len() + 1
                &&& m.subrange(0, inner.len() as int) == inner
                &&& m.last().span.file_id == e.span.file_id
                &&& !m.last().span.dummy
                &&& m.last().span.byte_length == name_len
                &&& m.last().span.byte_offset + m.last().span.byte_length == e.span.byte_offset + e.span.byte_length
                &&& m.last().token_type == member_token_type(receiver_type, member@, snap, tys)
                &&& m.last().modifiers == 0
            }
        }),
{
    match e.kind {
        ExpressionKind::DotAccess { expression, member, receiver_type } => {
            let m = expr_marks(e, file, snap, tys, mods);
            let inner = expr_marks(*expression, file, snap, tys, mods);
            let name_len = crate::highlight::byte_len_u32(member);
            reveal(expr_marks);
            if e.span.byte_length > name_len {
                assert(m.subrange(0, inner.len() as int) =~= inner);
            } else {
                assert(m =~= inner);
            }
        },
        _ => {},
    }
}

// ------------------------------------------------------------ marks to tokens

/// The token that a mark stands for: at the start of its span's range, as
/// wide as the range is on its first line, with the mark's type and
/// modifiers.
pub open spec fn token_at(text: Seq<u8>, m: Mark) -> AbsoluteToken {
    let r = span_range(text, m.span);
    AbsoluteToken {
        line: r.start.line,
        start: r.start.character,
        length: (r.end.character - r.start.character) as u32,
        token_type: m.token_type,
        token_modifiers_bitset: m.modifiers,
    }
}

/// The mark's span is a real one whose range has width on its first line.
pub open spec fn visible(text: Seq<u8>, m: Mark) -> bool {
    !m.span.dummy && span_range(text, m.span).end.character > span_range(text, m.span).start.character
}

/// `t` is the token of a visible mark of `ms`.
pub open spec fn from_visible_mark(text: Seq<u8>, ms: Seq<Mark>, t: AbsoluteToken) -> bool {
    exists|i: int| 0 <= i < ms.len() && visible(text, ms[i]) && t == #[trigger] token_at(text, ms[i])
}

/// No mark is lost and none is invented on the way to tokens: every visible
/// mark becomes its token, and every token is that of a visible mark.
pub proof fn lemma_marks_become_tokens(text: Seq<u8>, ms: Seq<Mark>)
    ensures
        forall|i: int| 0 <= i < ms.len() && visible(text, #[trigger] ms[i]) ==> mark_tokens(text, ms).contains(token_at(text, ms[i])),
        forall|j: int| 0 <= j < mark_tokens(text, ms).len() ==> from_visible_mark(text, ms, #[trigger] mark_tokens(text, ms)[j]),
    decreases ms.len(),
{
    reveal(mark_tokens);
    if ms.len() > 0 {
        let init = ms.drop_last();
        let last = ms.last();
        lemma_marks_become_tokens(text, init);
        let prev = mark_tokens(text, init);
        let toks = mark_tokens(text, ms);
        assert forall|i: int| 0 <= i < ms.len() && visible(text, #[trigger] ms[i]) implies toks.contains(token_at(text, ms[i])) by {
            if i < init.len() {
                assert(ms[i] == init[i]);
                assert(prev.contains(token_at(text, init[i])));
                let k = choose|k: int| 0 <= k < prev.len() && prev[k] == token_at(text, init[i]);
                match mark_token(text, last) {
                    Some(t) => {
                        assert(toks[k] == prev[k]);
                    },
                    None => {},
                }
            } else {
                assert(ms[i] == last);
                assert(mark_token(text, last) == Some(token_at(text, last)));
                assert(toks[prev.len() as int] == token_at(text, last));
            }
        }
        assert forall|j: int| 0 <= j < toks.len() implies from_visible_mark(text, ms, #[trigger] toks[j]) by {
            if j < prev.len() {
                assert(toks[j] == prev[j]);
                assert(from_visible_mark(text, init, prev[j]));
                let i = choose|i: int| 0 <= i < init.len() && visible(text, init[i]) && prev[j] == #[trigger] token_at(text, init[i]);
                assert(ms[i] == init[i]);
                assert(toks[j] == token_at(text, ms[i]));
            } else {
                let r = span_range(text, last.span);
                assert(mark_token(text, last) is Some);
                assert(r.end.character.saturating_sub(r.start.character) != 0);
                assert(r.end.character > r.start.character);
                assert(visible(text, last));
                assert(mark_token(text, last) == Some(token_at(text, last)));
                assert(toks[j] == token_at(text, last));
                assert(ms[ms.len() - 1] == last);
                assert(toks[j] == token_at(text, ms[ms.len() - 1]));
            }
        }
    } else {
        assert(mark_tokens(text, ms).len() == 0);
    }
}

/// What `compute_semantic_tokens` returns, read back, holds the token of
/// every visible mark of the file, and nothing but such tokens.
pub proof fn lemma_file_tokens_complete(file: File, snap: AnalysisSnapshot, text: Seq<u8>)
    ensures
        forall|i: int| 0 <= i < crate::highlight::file_marks(file, snap).len()
            && visible(text, #[trigger] crate::highlight::file_marks(file, snap)[i]) ==> decode(
            encode(sort_by_place(mark_tokens(text, crate::highlight::file_marks(file, snap)))),
        ).contains(token_at(text, crate::highlight::file_marks(file, snap)[i])),
        forall|j: int| 0 <= j < decode(encode(sort_by_place(mark_tokens(text, crate::highlight::file_marks(file, snap))))).len()
            ==> from_visible_mark(
            text,
            crate::highlight::file_marks(file, snap),
            #[trigger] decode(encode(sort_by_place(mark_tokens(text, crate::highlight::file_marks(file, snap)))))[j],
        ),
{
    broadcast use vstd::seq_lib::group_to_multiset_ensures;
    let fm = crate::highlight::file_marks(file, snap);
    let toks = mark_tokens(text, fm);
    let sorted = sort_by_place(toks);
    lemma_marks_become_tokens(text, fm);
    lemma_build_decodes(toks);
    assert(decode(encode(sorted)) == sorted);
    assert forall|i: int| 0 <= i < fm.len() && visible(text, #[trigger] fm[i]) implies sorted.contains(token_at(text, fm[i])) by {
        let t = token_at(text, fm[i]);
        assert(toks.contains(t));
        assert(toks.to_multiset().count(t) > 0);
        assert(sorted.to_multiset().count(t) > 0);
    }
    assert forall|j: int| 0 <= j < sorted.len() implies from_visible_mark(text, fm, #[trigger] sorted[j]) by {
        let t = sorted[j];
        assert(sorted.contains(t));
        assert(sorted.to_multiset().count(t) > 0);
        assert(toks.to_multiset().count(t) > 0);
        assert(toks.contains(t));
        let k = choose|k: int| 0 <= k < toks.len() && toks[k] == t;
        assert(from_visible_mark(text, fm, toks[k]));
    }
}

} // verus!
