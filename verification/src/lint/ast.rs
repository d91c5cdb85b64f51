//! The parts of a PHP syntax tree that the lint rules read.
use vstd::prelude::*;

use crate::lint::report::Span;

verus! {

/// The kinds of literal that the rules tell apart.
#[derive(Debug, Clone, Copy)]
pub enum LiteralKind {
    /// An integer literal and its value (none when it does not fit).
    Integer { value: Option<u64> },
    Null,
    Other,
}

/// Post-increment and post-decrement.
#[derive(Debug, Clone, Copy, PartialEq, Eq, Structural)]
pub enum PostfixOperator {
    PostIncrement,
    PostDecrement,
}

/// A name as written in the source.
#[derive(Debug, Clone)]
pub enum Identifier {
    /// `Foo`.
    Local { value: Vec<u8>, span: Span },
    /// `Foo\Bar`.
    Qualified { value: Vec<u8>, span: Span },
    /// `\Foo\Bar`; `value` holds the leading backslash.
    FullyQualified { value: Vec<u8>, span: Span },
}

/// The kinds of expression that the rules tell apart.
#[derive(Debug, Clone)]
pub enum ExprKind {
    Literal(LiteralKind),
    ConstantAccess,
    MagicConstant,
    Array,
    LegacyArray,
    Variable,
    Access,
    ArrayAccess,
    /// `$x++` or `$x--`.
    UnaryPostfix { operator: PostfixOperator, operator_span: Span, operand: Span },
    Throw,
    /// `exit(..)`.
    Exit,
    /// `die(..)`.
    Die,
    /// A bare name, as in a call `\strlen(..)`.
    Identifier(Identifier),
    Other,
}

/// An expression and its span.
#[derive(Debug, Clone)]
pub struct Expression {
    pub kind: ExprKind,
    pub span: Span,
}

/// The statements that the switch rules walk through.
#[derive(Debug)]
pub enum Statement {
    Namespace { statements: Vec<Statement> },
    Block { statements: Vec<Statement> },
    Declare { body: DeclareBody },
    /// `try { block } catch .. { catch_blocks[i] } finally { .. }`.
    Try {
        block: Vec<Statement>,
        catch_blocks: Vec<Vec<Statement>>,
        finally_block: Option<Vec<Statement>>,
    },
    If { body: IfBody },
    /// `continue` with its keyword and its optional level.
    Continue { keyword: Span, level: Option<Expression> },
    Break,
    Return,
    Goto,
    /// An expression statement.
    Expression { expression: Expression },
    Foreach,
    For,
    While,
    DoWhile,
    Switch,
    Function,
    Class,
    Interface,
    Trait,
    Enum,
    Other,
}

/// The body of a `declare`.
#[derive(Debug)]
pub enum DeclareBody {
    Statement(Box<Statement>),
    ColonDelimited(Vec<Statement>),
}

/// The body of an `if`, with its `elseif` and `else` clauses.
#[derive(Debug)]
pub enum IfBody {
    /// `if (..) statement elseif (..) statement else statement`.
    Statement {
        statement: Box<Statement>,
        else_ifs: Vec<Statement>,
        else_clause: Option<Box<Statement>>,
    },
    /// `if (..): statements elseif (..): statements else: statements endif;`.
    ColonDelimited {
        statements: Vec<Statement>,
        else_ifs: Vec<Vec<Statement>>,
        else_clause: Option<Vec<Statement>>,
    },
}

} // verus!

verus! {

/// One `case` (or `default`) of a `switch`.
#[derive(Debug)]
pub struct SwitchCase {
    /// The span of the `case` or `default` keyword.
    pub keyword: Span,
    /// The span of the whole case.
    pub span: Span,
    pub statements: Vec<Statement>,
}

} // verus!

verus! {

/// The binary operators that the rules tell apart.
#[derive(Debug, Clone, Copy, PartialEq, Eq, Structural)]
pub enum BinaryOperator {
    /// `==`
    Equal,
    /// `!=`
    NotEqual,
    /// `===`
    Identical,
    /// `!==`
    NotIdentical,
    /// `<>`
    AngledNotEqual,
    /// `<`
    LessThan,
    /// `<=`
    LessThanOrEqual,
    /// `>`
    GreaterThan,
    /// `>=`
    GreaterThanOrEqual,
    /// `instanceof`
    Instanceof,
    Other,
}

/// A binary expression.
#[derive(Debug, Clone)]
pub struct Binary {
    pub lhs: Expression,
    pub operator: BinaryOperator,
    pub operator_span: Span,
    pub rhs: Expression,
}

} // verus!

verus! {

/// A node that the pre-increment rule looks at.
#[derive(Debug, Clone)]
pub enum IncrementSite {
    /// An expression statement, such as `$i++;`.
    ExpressionStatement { expression: Expression },
    /// A `for` loop and its increment expressions.
    For { increments: Vec<Expression> },
    Other,
}

/// One item of a property declaration.
#[derive(Debug, Clone)]
pub enum PropertyItem {
    /// `$name`.
    Abstract { variable: Span },
    /// `$name = value`, with the span of the `=`.
    Concrete { variable: Span, equals: Span, value: Expression },
}

/// A property declaration without hooks.
#[derive(Debug, Clone)]
pub struct PlainProperty {
    /// Whether the property has a type.
    pub has_hint: bool,
    pub items: Vec<PropertyItem>,
}

/// The `as Alias` part of an import.
#[derive(Debug, Clone, Copy)]
pub struct UseItemAlias {
    pub as_keyword: Span,
    pub identifier: Span,
}

/// One imported name of a `use` statement.
#[derive(Debug, Clone, Copy)]
pub struct UseItem {
    pub name: Span,
    pub alias: Option<UseItemAlias>,
}

/// The control structures that have an alternative (colon) syntax.
#[derive(Debug, Clone, Copy, PartialEq, Eq, Structural)]
pub enum ControlKind {
    If,
    While,
    For,
    Foreach,
    Switch,
    Declare,
}

/// A control structure; `end_keyword` is the span of its `endif` (etc.)
/// when it is written with the colon syntax.
#[derive(Debug, Clone, Copy)]
pub struct ControlStructure {
    pub kind: ControlKind,
    pub end_keyword: Option<Span>,
}

} // verus!

verus! {

/// A node of the body of a closure, as far as variable uses are concerned.
#[derive(Debug)]
pub enum Node {
    /// `$name`; `name` holds the `$`.
    DirectVariable { name: Vec<u8> },
    /// A nested closure, with the names of its `use` clause.
    Closure { use_variables: Vec<Vec<u8>> },
    /// `fn (params) => expression`.
    ArrowFunction { parameters: Vec<Vec<u8>>, expression: Box<Node> },
    /// A `catch` clause and its block.
    TryCatchClause { block: Box<Node> },
    /// `static $x;`.
    StaticAbstractItem,
    /// `static $x = value;`.
    StaticConcreteItem { value: Box<Node> },
    /// `global $x;`.
    Global,
    AnonymousClass,
    /// A function, class or other declaration.
    Declaration,
    /// Any other node, with its children.
    Other { children: Vec<Node> },
}

/// A variable of a closure's `use` clause.
#[derive(Debug, Clone)]
pub struct ClosureUseVariable {
    /// Imported by reference (`&$x`).
    pub by_reference: bool,
    pub name: Vec<u8>,
    pub span: Span,
}

/// A closure: its `use` clause (if any) and the statements of its body.
#[derive(Debug)]
pub struct ClosureExpr {
    pub use_clause: Option<Vec<ClosureUseVariable>>,
    pub body: Vec<Node>,
}

} // verus!

verus! {

/// The items of a `use` statement, by the form of the statement; each holds
/// the imported names as written.
#[derive(Debug, Clone)]
pub enum UseItems {
    /// `use A\B, C;`
    Sequence { names: Vec<Vec<u8>> },
    /// `use function A\b, C\d;`
    TypedSequence { names: Vec<Vec<u8>> },
    /// `use A\{B, function c};`
    MixedList { names: Vec<Vec<u8>> },
    /// `use function A\{b, c};`
    TypedList { names: Vec<Vec<u8>> },
}

/// A `use` statement.
#[derive(Debug, Clone)]
pub struct UseStatement {
    pub span: Span,
    pub items: UseItems,
}

/// A statement inside a namespace.
#[derive(Debug, Clone)]
pub enum NamespaceMember {
    Use(UseStatement),
    Other,
}

/// A top-level statement of a file.
#[derive(Debug, Clone)]
pub enum TopStatement {
    /// A namespace; `name_end` is the end of its name, when it has one.
    Namespace { name_end: Option<u32>, statements: Vec<NamespaceMember> },
    Use(UseStatement),
    Other,
}

/// A type hint.
#[derive(Debug, Clone)]
pub enum Hint {
    Identifier(Identifier),
    Other,
}

/// A node that names a class, function or constant, as the syntax walker
/// visits it.
#[derive(Debug, Clone)]
pub enum NameSite {
    /// `f(..)`: the called expression.
    FunctionCall { function: Expression },
    /// `new C(..)`: the class expression.
    Instantiation { class: Expression },
    /// `C::m(..)`.
    StaticMethodCall { class: Expression },
    /// `C::$p`.
    StaticPropertyAccess { class: Expression },
    /// `C::K`.
    ClassConstantAccess { class: Expression },
    Hint(Hint),
    /// A binary expression: its operator and right operand.
    Binary { operator: BinaryOperator, rhs: Expression },
    /// `K`.
    ConstantAccess { name: Identifier },
}

/// A file: its top-level statements, and the naming nodes in the order in
/// which the syntax walker visits them.
#[derive(Debug, Clone)]
pub struct Program {
    pub statements: Vec<TopStatement>,
    pub sites: Vec<NameSite>,
}

} // verus!
