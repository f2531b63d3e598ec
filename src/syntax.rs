//! The shading-language syntax tree that the import compiler works on.
use vstd::prelude::*;

verus! {

/// A reference to a named type or value: `f32`, `Light`, `scale`.
#[derive(Debug)]
pub struct TypeExpression {
    pub name: String,
}

#[derive(PartialEq, Eq, Structural, Clone, Copy, Debug)]
pub enum UnaryOperator {
    LogicalNegation,
    Negation,
    BitwiseComplement,
    AddressOf,
    Indirection,
}

#[derive(PartialEq, Eq, Structural, Clone, Copy, Debug)]
pub enum BinaryOperator {
    ShortCircuitOr,
    ShortCircuitAnd,
    Addition,
    Subtraction,
    Multiplication,
    Division,
    Remainder,
    Equality,
    Inequality,
    LessThan,
    LessThanEqual,
    GreaterThan,
    GreaterThanEqual,
    BitwiseOr,
    BitwiseAnd,
    BitwiseXor,
    ShiftLeft,
    ShiftRight,
}

#[derive(PartialEq, Eq, Structural, Clone, Copy, Debug)]
pub enum AssignmentOperator {
    Equal,
    PlusEqual,
    MinusEqual,
    TimesEqual,
    DivisionEqual,
    ModuloEqual,
    AndEqual,
    OrEqual,
    XorEqual,
    ShiftRightAssign,
    ShiftLeftAssign,
}

/// A call `name(arguments...)`; the callee is an identifier-bearing position.
#[derive(Debug)]
pub struct FunctionCall {
    pub name: String,
    pub arguments: Vec<Expression>,
}

#[derive(Debug)]
pub enum Expression {
    /// A literal, kept as its source text.
    Literal(String),
    Parenthesized(Box<Expression>),
    /// `base.component` (field access or swizzle).
    NamedComponent(Box<Expression>, String),
    /// `base[index]`.
    Indexing(Box<Expression>, Box<Expression>),
    Unary(UnaryOperator, Box<Expression>),
    Binary(BinaryOperator, Box<Expression>, Box<Expression>),
    FunctionCall(FunctionCall),
    /// A bare identifier, which the grammar reads as a value or a type.
    Type(TypeExpression),
}

#[derive(PartialEq, Eq, Structural, Clone, Copy, Debug)]
pub enum DeclarationKind {
    Const,
    Override,
    Let,
    Var,
}

/// `const|override|let|var name: ty = initializer;`
#[derive(Debug)]
pub struct Declaration {
    pub kind: DeclarationKind,
    pub name: String,
    pub ty: Option<TypeExpression>,
    pub initializer: Option<Expression>,
}

#[derive(Debug)]
pub struct CompoundStatement {
    pub statements: Vec<Statement>,
}

#[derive(Debug)]
pub enum CaseSelector {
    Default,
    Expression(Expression),
}

#[derive(Debug)]
pub struct SwitchClause {
    pub case_selectors: Vec<CaseSelector>,
    pub body: CompoundStatement,
}

/// `continuing { body  break if break_if; }`
#[derive(Debug)]
pub struct ContinuingStatement {
    pub body: CompoundStatement,
    pub break_if: Option<Expression>,
}

#[derive(Debug)]
pub struct ElseIfClause {
    pub condition: Expression,
    pub body: CompoundStatement,
}

#[derive(Debug)]
pub enum Statement {
    Void,
    Compound(CompoundStatement),
    Assignment(AssignmentOperator, Expression, Expression),
    Increment(Expression),
    Decrement(Expression),
    If(Expression, CompoundStatement, Vec<ElseIfClause>, Option<CompoundStatement>),
    Switch(Expression, Vec<SwitchClause>),
    Loop(CompoundStatement, Option<ContinuingStatement>),
    For(Option<Box<Statement>>, Option<Expression>, Option<Box<Statement>>, CompoundStatement),
    While(Expression, CompoundStatement),
    Break,
    Continue,
    Return(Option<Expression>),
    Discard,
    FunctionCall(FunctionCall),
    ConstAssert(Expression),
    Declaration(Declaration),
}

#[derive(Debug)]
pub struct TypeAlias {
    pub name: String,
    pub ty: TypeExpression,
}

#[derive(Debug)]
pub struct StructMember {
    pub name: String,
    pub ty: TypeExpression,
}

#[derive(Debug)]
pub struct Struct {
    pub name: String,
    pub members: Vec<StructMember>,
}

#[derive(Debug)]
pub struct FormalParameter {
    pub name: String,
    pub ty: TypeExpression,
}

#[derive(Debug)]
pub struct Function {
    pub name: String,
    pub parameters: Vec<FormalParameter>,
    pub return_type: Option<TypeExpression>,
    pub body: CompoundStatement,
}

/// One imported symbol, with its optional local alias.
#[derive(Debug)]
pub struct ImportItem {
    pub name: String,
    pub rename: Option<String>,
}

/// `import a, b as c from "path";`
#[derive(Debug)]
pub struct ImportDirective {
    pub path: String,
    pub items: Vec<ImportItem>,
}

#[derive(Debug)]
pub enum GlobalDeclaration {
    Void,
    Declaration(Declaration),
    TypeAlias(TypeAlias),
    Struct(Struct),
    Function(Function),
    ConstAssert(Expression),
    Import(ImportDirective),
}

#[derive(Debug)]
pub struct TranslationUnit {
    pub global_declarations: Vec<GlobalDeclaration>,
}

} // verus!
