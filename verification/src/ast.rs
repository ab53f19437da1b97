//! The parsed file, as far as highlighting reads it: spans, expressions and
//! patterns.
use vstd::prelude::*;

verus! {

/// A byte range of one source file.
#[derive(Clone, Copy, Debug, PartialEq, Eq, Structural)]
pub struct Span {
    pub file_id: u32,
    pub byte_offset: u32,
    pub byte_length: u32,
    /// The span stands for no place in any source, as that of a definition
    /// that comes from outside the program; nothing is highlighted there.
    pub dummy: bool,
}

impl Span {
    pub fn new(file_id: u32, byte_offset: u32, byte_length: u32) -> (r: Self)
        ensures
            r == (Span { file_id, byte_offset, byte_length, dummy: false }),
    {
        Span { file_id, byte_offset, byte_length, dummy: false }
    }

    /// The span of something that has no place in any source.
    pub fn dummy() -> (r: Self)
        ensures
            r == (Span { file_id: 0, byte_offset: 0, byte_length: 0, dummy: true }),
    {
        Span { file_id: 0, byte_offset: 0, byte_length: 0, dummy: true }
    }

    pub fn is_dummy(&self) -> (r: bool)
        ensures
            r == self.dummy,
    {
        self.dummy
    }
}

/// A parsed source file.
pub struct File {
    pub id: u32,
    /// The module that the file belongs to, as names are qualified with it.
    pub module_id: String,
    pub source: String,
    /// The top-level items, in source order.
    pub items: Vec<Expression>,
}

/// An expression together with the span it covers.
pub struct Expression {
    pub kind: ExpressionKind,
    pub span: Span,
}

impl Expression {
    pub fn get_span(&self) -> (r: Span)
        ensures
            r == self.span,
    {
        self.span
    }
}

/// A pattern that binds, as it stands in a parameter, `let` or `for`.
pub struct Binding {
    pub pattern: Pattern,
}

pub struct MatchArm {
    pub pattern: Pattern,
    pub guard: Option<Box<Expression>>,
    pub expression: Box<Expression>,
}

pub enum SelectArmPattern {
    Receive { body: Box<Expression> },
    Send { body: Box<Expression> },
    MatchReceive { arms: Vec<MatchArm> },
    WildCard { body: Box<Expression> },
}

pub struct SelectArm {
    pub pattern: SelectArmPattern,
}

/// A name introduced by a module import.
pub enum ImportAlias {
    Named { span: Span },
    Blank { span: Span },
}

pub enum FormatStringPart {
    Text,
    Expression(Box<Expression>),
}

pub enum Literal {
    Integer,
    Float,
    Imaginary,
    Str,
    Char,
    Boolean,
    FormatString(Vec<FormatStringPart>),
    Slice(Vec<Expression>),
}

pub enum ExpressionKind {
    Struct { name_span: Span },
    Enum { name_span: Span },
    ValueEnum { name_span: Span },
    Interface { name_span: Span },
    TypeAlias { name_span: Span },
    Function { name_span: Span, params: Vec<Binding>, body: Box<Expression> },
    ImplBlock { methods: Vec<Expression> },
    Const { identifier_span: Span },
    VariableDeclaration { name_span: Span },
    Let { binding: Binding, value: Box<Expression> },
    For { binding: Binding, iterable: Box<Expression>, body: Box<Expression> },
    Lambda { params: Vec<Binding>, body: Box<Expression> },
    /// A name; `qualified` is its resolved qualified name and `binding_id`
    /// the local binding it refers to, where the analysis found them.
    Identifier { value: String, qualified: Option<String>, binding_id: Option<u32> },
    /// `expression.member`; `receiver_type` is the name of the receiver's
    /// type, where it has one.
    DotAccess { expression: Box<Expression>, member: String, receiver_type: Option<String> },
    Match { arms: Vec<MatchArm> },
    IfLet {
        pattern: Pattern,
        scrutinee: Box<Expression>,
        consequence: Box<Expression>,
        alternative: Box<Expression>,
    },
    WhileLet { pattern: Pattern, scrutinee: Box<Expression>, body: Box<Expression> },
    /// A struct literal: its constructor's name, whether that names an enum
    /// variant, and the values of its field assignments, in order.
    StructCall { name_span: Span, variant: bool, field_values: Vec<Expression> },
    Binary { left: Box<Expression>, right: Box<Expression> },
    Unary { expression: Box<Expression> },
    Block { items: Vec<Expression> },
    Tuple { elements: Vec<Expression> },
    Call { expression: Box<Expression>, args: Vec<Expression> },
    If { condition: Box<Expression>, consequence: Box<Expression>, alternative: Box<Expression> },
    While { condition: Box<Expression>, body: Box<Expression> },
    Return { expression: Box<Expression> },
    Defer { expression: Box<Expression> },
    Select { arms: Vec<SelectArm> },
    Task { expression: Box<Expression> },
    TryBlock { items: Vec<Expression> },
    RecoverBlock { items: Vec<Expression> },
    Break { value: Option<Box<Expression>> },
    Continue,
    /// An import: the span of the imported module's name, and its alias.
    ModuleImport { name_span: Span, alias: Option<ImportAlias> },
    Paren { expression: Box<Expression> },
    Range { start: Option<Box<Expression>>, end: Option<Box<Expression>> },
    IndexedAccess { expression: Box<Expression>, index: Box<Expression> },
    Cast { expression: Box<Expression> },
    Loop { body: Box<Expression> },
    Propagate { expression: Box<Expression> },
    Reference { expression: Box<Expression> },
    Assignment { target: Box<Expression>, value: Box<Expression> },
    Literal { literal: Literal },
    Unit,
    RawGo,
    NoOp,
}

pub struct FieldPattern {
    pub value: Pattern,
}

/// The part of a slice pattern after its prefix.
pub enum RestPattern {
    /// A rest that binds no name, or no rest at all.
    Unbound,
    /// A rest bound to a name, at `span`.
    Bind { span: Span },
}

pub enum Pattern {
    Identifier { span: Span },
    EnumVariant { fields: Vec<Pattern>, span: Span },
    Tuple { elements: Vec<Pattern> },
    Struct { fields: Vec<FieldPattern>, span: Span },
    WildCard,
    Literal,
    Unit,
    AsBinding { pattern: Box<Pattern>, span: Span },
    Or { patterns: Vec<Pattern> },
    Slice { prefix: Vec<Pattern>, rest: RestPattern },
}

} // verus!
