mod clone;

use crate::list::List;
use crate::token::Token;
use vstd::prelude::*;

verus! {

/// A whole source text.
#[derive(Debug, PartialEq)]
pub struct Program<'s> {
    /// The statements of the text, in order.
    pub statements: Vec<Statement<'s>>,
}

/// A name, with the token that it comes from.
#[derive(Debug, Clone, Copy, PartialEq)]
pub struct Identifier<'s> {
    /// The name as it is spelled.
    pub value: &'s str,

    /// The token of the name.
    pub token: &'s Token<'s>,
}

/// A list of at least one item, with a separator between any two.
#[derive(Debug, PartialEq)]
pub struct SeparatedList1<T> {
    /// All items but the last one.
    pub items: List<T>,

    /// The last item.
    pub last_item: Box<T>,
}

/// A statement.
#[derive(Debug, PartialEq)]
pub struct Statement<'s> {
    /// What the statement is.
    pub ty: StatementType<'s>,

    /// The semicolon that ends the statement, if there is one.
    pub semicolon: Option<&'s Token<'s>>,
}

/// The kinds of statements.
#[derive(Debug, PartialEq)]
pub enum StatementType<'s> {
    /// `;`
    Empty,
    /// `{ statements }`
    Block(List<Statement<'s>>),
    /// `if ( condition ) body else body`
    If(IfStatement<'s>),
    /// `while ( condition ) body`
    While(WhileStatement<'s>),
    /// `do body while ( condition )`
    DoWhile(WhileStatement<'s>),
    /// `for ( initializer ; condition ; increment ) body`
    For(ForStatement<'s>),
    /// `foreach ( index, value in array ) body`
    Foreach(ForeachStatement<'s>),
    /// `switch ( value ) { cases }`
    Switch(SwitchStatement<'s>),
    /// `break`
    Break,
    /// `continue`
    Continue,
    /// `return value`
    Return(Option<Expression<'s>>),
    /// `yield value`
    Yield(Option<Expression<'s>>),
    /// `throw value`
    Throw(Expression<'s>),
    /// `try body catch ( name ) body`
    TryCatch(TryCatchStatement<'s>),
    /// `const type name = value`
    Const(ConstStatement<'s>),
    /// `enum name { entries }`
    EnumDefinition(EnumDefinition<'s>),
    /// `struct name { fields }`
    StructDefinition(StructDefinition<'s>),
    /// `typedef name type`
    TypeDefinition(TypeDefinition<'s>),
    /// `class name extends name { members }`
    ClassDefinition(ClassDefinition<'s>),
    /// `type name = value, name = value`
    VarDefinition(VarDefinition<'s>),
    /// `type function name( params ) body`
    FunctionDefinition(FunctionDefinitionStatement<'s>),
    /// `global function name`
    GlobalFunction(SeparatedList1<Identifier<'s>>),
    /// `global` before a definition
    Global(Box<Statement<'s>>),
    /// `globalize_all_functions`
    GlobalizeAllFunctions,
    /// `untyped`
    Untyped,
    /// `thread value`
    Thread(Expression<'s>),
    /// `waitthread value`
    WaitThread(Expression<'s>),
    /// `waitthreadsolo value`
    WaitThreadSolo(Expression<'s>),
    /// `delaythread ( duration ) value`
    DelayThread(DelayThreadStatement<'s>),
    /// `wait value`
    Wait(Expression<'s>),
    /// An expression on its own.
    Expression(Expression<'s>),
}

/// A choice between two statements.
#[derive(Debug, PartialEq)]
pub struct IfStatement<'s> {
    pub condition: Expression<'s>,
    pub body: Box<Statement<'s>>,
    pub else_body: Option<Box<Statement<'s>>>,
}

/// A loop with a condition.
#[derive(Debug, PartialEq)]
pub struct WhileStatement<'s> {
    pub condition: Expression<'s>,
    pub body: Box<Statement<'s>>,
}

/// A loop with a definition, a condition and a step, each of which can be left out.
#[derive(Debug, PartialEq)]
pub struct ForStatement<'s> {
    pub initializer: Option<ForInitializer<'s>>,
    pub condition: Option<Expression<'s>>,
    pub increment: Option<Expression<'s>>,
    pub body: Box<Statement<'s>>,
}

/// What a `for` loop does first.
#[derive(Debug, PartialEq)]
pub enum ForInitializer<'s> {
    Definition(VarDefinition<'s>),
    Expression(Expression<'s>),
}

/// A loop over the items of a value.
#[derive(Debug, PartialEq)]
pub struct ForeachStatement<'s> {
    pub index: Option<TypedName<'s>>,
    pub value: TypedName<'s>,
    pub array: Expression<'s>,
    pub body: Box<Statement<'s>>,
}

/// A name, with its type if it is given.
#[derive(Debug, PartialEq)]
pub struct TypedName<'s> {
    pub ty: Option<Type<'s>>,
    pub name: Identifier<'s>,
}

/// A choice between many cases.
#[derive(Debug, PartialEq)]
pub struct SwitchStatement<'s> {
    pub value: Expression<'s>,
    pub cases: List<SwitchCase<'s>>,
}

/// A case of a `switch`; the default case has no value.
#[derive(Debug, PartialEq)]
pub struct SwitchCase<'s> {
    pub value: Option<Expression<'s>>,
    pub body: List<Statement<'s>>,
}

/// A statement with one that handles what it throws.
#[derive(Debug, PartialEq)]
pub struct TryCatchStatement<'s> {
    pub body: Box<Statement<'s>>,
    pub name: Identifier<'s>,
    pub handler: Box<Statement<'s>>,
}

/// A named constant.
#[derive(Debug, PartialEq)]
pub struct ConstStatement<'s> {
    pub ty: Option<Type<'s>>,
    pub name: Identifier<'s>,
    pub value: Expression<'s>,
}

/// A named list of constants.
#[derive(Debug, PartialEq)]
pub struct EnumDefinition<'s> {
    pub name: Identifier<'s>,
    pub entries: List<EnumEntry<'s>>,
}

/// A constant of an `enum`.
#[derive(Debug, PartialEq)]
pub struct EnumEntry<'s> {
    pub name: Identifier<'s>,
    pub value: Option<Expression<'s>>,
}

/// A named record type.
#[derive(Debug, PartialEq)]
pub struct StructDefinition<'s> {
    pub name: Identifier<'s>,
    pub fields: List<StructField<'s>>,
}

/// A field of a record type.
#[derive(Debug, PartialEq)]
pub struct StructField<'s> {
    pub ty: Type<'s>,
    pub name: Identifier<'s>,
    pub value: Option<Expression<'s>>,
}

/// A second name for a type.
#[derive(Debug, PartialEq)]
pub struct TypeDefinition<'s> {
    pub name: Identifier<'s>,
    pub ty: Type<'s>,
}

/// A class.
#[derive(Debug, PartialEq)]
pub struct ClassDefinition<'s> {
    pub name: SeparatedList1<Identifier<'s>>,
    pub base: Option<Expression<'s>>,
    pub members: List<ClassMember<'s>>,
}

/// A member of a class.
#[derive(Debug, PartialEq)]
pub struct ClassMember<'s> {
    pub is_static: bool,
    pub ty: ClassMemberType<'s>,
}

/// The kinds of class members.
#[derive(Debug, PartialEq)]
pub enum ClassMemberType<'s> {
    Property(Identifier<'s>, Expression<'s>),
    Constructor(FunctionDefinition<'s>),
    Function(Identifier<'s>, FunctionDefinition<'s>),
}

/// One or more variables of a type.
#[derive(Debug, PartialEq)]
pub struct VarDefinition<'s> {
    /// The type of the variables; `local` gives none.
    pub ty: Option<Type<'s>>,

    /// The variables.
    pub variables: List<Variable<'s>>,
}

/// A variable, with its first value if it is given.
#[derive(Debug, PartialEq)]
pub struct Variable<'s> {
    pub name: Identifier<'s>,
    pub value: Option<Expression<'s>>,
}

/// A function with a name.
#[derive(Debug, PartialEq)]
pub struct FunctionDefinitionStatement<'s> {
    /// The type that the function returns, if it is given.
    pub return_type: Option<Type<'s>>,

    /// The name of the function, behind the names of what it belongs to.
    pub name: SeparatedList1<Identifier<'s>>,

    /// The parameters and the body.
    pub definition: FunctionDefinition<'s>,
}

/// The parameters and the body of a function.
#[derive(Debug, PartialEq)]
pub struct FunctionDefinition<'s> {
    pub params: FunctionParams<'s>,
    pub body: Box<Statement<'s>>,
}

/// The parameters of a function.
#[derive(Debug, PartialEq)]
pub struct FunctionParams<'s> {
    pub params: List<FunctionParam<'s>>,

    /// Whether the function takes more values than it has parameters.
    pub is_vararg: bool,
}

/// A parameter of a function.
#[derive(Debug, PartialEq)]
pub struct FunctionParam<'s> {
    pub ty: Option<Type<'s>>,
    pub name: Identifier<'s>,
    pub default: Option<Expression<'s>>,
}

/// A call that starts later.
#[derive(Debug, PartialEq)]
pub struct DelayThreadStatement<'s> {
    pub duration: Expression<'s>,
    pub value: Expression<'s>,
}

/// A type.
#[derive(Debug, PartialEq)]
pub enum Type<'s> {
    /// `name`
    Plain(Identifier<'s>),
    /// `name<arguments>`
    Generic(Identifier<'s>, List<Type<'s>>),
    /// `element[size]`
    Array(Box<Type<'s>>, Option<Box<Expression<'s>>>),
    /// `type&`
    Reference(Box<Type<'s>>),
    /// `type ornull`
    Nullable(Box<Type<'s>>),
    /// `type functionref( params )`
    FunctionRef(Option<Box<Type<'s>>>, List<FunctionRefParam<'s>>),
    /// `struct { fields }`
    Struct(List<StructField<'s>>),
}

/// A parameter of a function type.
#[derive(Debug, PartialEq)]
pub struct FunctionRefParam<'s> {
    pub ty: Type<'s>,
    pub name: Option<Identifier<'s>>,
}

/// An expression.
#[derive(Debug, PartialEq)]
pub enum Expression<'s> {
    /// A literal.
    Literal(&'s Token<'s>),
    /// `true`
    True,
    /// `false`
    False,
    /// `null`
    Null,
    /// `this`
    This,
    /// `base`
    Base,
    /// `name`
    Var(Identifier<'s>),
    /// `::name`
    RootVar(Identifier<'s>),
    /// `( value )`
    Parens(Box<Expression<'s>>),
    /// `base[index]`
    Index(Box<Expression<'s>>, Box<Expression<'s>>),
    /// `base.name`
    Property(Box<Expression<'s>>, Identifier<'s>),
    /// `function( arguments )`
    Call(Box<Expression<'s>>, List<Expression<'s>>),
    /// `operator value`
    Prefix(PrefixOperator, Box<Expression<'s>>),
    /// `value operator`
    Postfix(PostfixOperator, Box<Expression<'s>>),
    /// `left operator right`
    Binary(BinaryOperator, Box<Expression<'s>>, Box<Expression<'s>>),
    /// `condition ? value : value`
    Ternary(Box<Expression<'s>>, Box<Expression<'s>>, Box<Expression<'s>>),
    /// `[ values ]`
    Array(List<Expression<'s>>),
    /// `{ entries }`
    Table(List<TableEntry<'s>>),
    /// `< x, y, z >`
    Vector(Box<Expression<'s>>, Box<Expression<'s>>, Box<Expression<'s>>),
    /// `type function( params ) body`
    Function(Option<Identifier<'s>>, FunctionDefinition<'s>),
    /// `@( params ) value`
    Lambda(FunctionParams<'s>, Box<Expression<'s>>),
    /// `expect type( value )`
    Expect(Type<'s>, Box<Expression<'s>>),
}

/// An entry of a table.
#[derive(Debug, PartialEq)]
pub enum TableEntry<'s> {
    /// `name = value`
    Property(Identifier<'s>, Expression<'s>),
    /// `[ key ] = value`
    Index(Expression<'s>, Expression<'s>),
    /// `function name( params ) body`
    Function(Identifier<'s>, FunctionDefinition<'s>),
}

/// An operator before its operand.
#[derive(Debug, Clone, Copy, PartialEq, Eq, Structural)]
pub enum PrefixOperator {
    Negate,
    LogicalNot,
    BitwiseNot,
    Typeof,
    Clone,
    Delete,
    Resume,
    Increment,
    Decrement,
}

/// An operator behind its operand.
#[derive(Debug, Clone, Copy, PartialEq, Eq, Structural)]
pub enum PostfixOperator {
    Increment,
    Decrement,
}

/// An operator between its operands.
#[derive(Debug, Clone, Copy, PartialEq, Eq, Structural)]
pub enum BinaryOperator {
    Assign,
    NewSlot,
    AddAssign,
    SubtractAssign,
    MultiplyAssign,
    DivideAssign,
    ModuloAssign,
    LogicalOr,
    LogicalAnd,
    BitwiseOr,
    BitwiseXor,
    BitwiseAnd,
    Equal,
    NotEqual,
    ThreeWay,
    Less,
    LessEqual,
    Greater,
    GreaterEqual,
    In,
    Instanceof,
    ShiftLeft,
    ShiftRight,
    UnsignedShiftRight,
    Add,
    Subtract,
    Multiply,
    Divide,
    Modulo,
}

} // verus!
