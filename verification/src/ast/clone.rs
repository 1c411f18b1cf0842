use crate::ast::{
    ClassDefinition, ClassMember, ClassMemberType, ConstStatement, DelayThreadStatement,
    EnumDefinition, EnumEntry, Expression, ForInitializer, ForStatement, ForeachStatement,
    FunctionDefinition, FunctionDefinitionStatement, FunctionParam, FunctionParams,
    FunctionRefParam, Identifier, IfStatement, Program, SeparatedList1, Statement, StatementType,
    StructDefinition, StructField, SwitchCase, SwitchStatement, TableEntry, TryCatchStatement,
    Type, TypeDefinition, TypedName, VarDefinition, Variable, WhileStatement,
};
use crate::list::List;
use vstd::prelude::*;

verus! {

impl Clone for Statement<'_> {
    fn clone(&self) -> (copy: Self)
        ensures
            copy == *self,
        decreases self,
    {
        Statement {
            ty: self.ty.clone(),
            semicolon: self.semicolon,
        }
    }
}

impl Clone for StatementType<'_> {
    fn clone(&self) -> (copy: Self)
        ensures
            copy == *self,
        decreases self,
    {
        match self {
            StatementType::Empty => StatementType::Empty,
            StatementType::Block(first) => StatementType::Block(copy_statement_list(first)),
            StatementType::If(first) => StatementType::If(first.clone()),
            StatementType::While(first) => StatementType::While(first.clone()),
            StatementType::DoWhile(first) => StatementType::DoWhile(first.clone()),
            StatementType::For(first) => StatementType::For(first.clone()),
            StatementType::Foreach(first) => StatementType::Foreach(first.clone()),
            StatementType::Switch(first) => StatementType::Switch(first.clone()),
            StatementType::Break => StatementType::Break,
            StatementType::Continue => StatementType::Continue,
            StatementType::Return(first) => StatementType::Return(
                match first {
                    Some(inner) => Some(inner.clone()),
                    None => None,
                },
            ),
            StatementType::Yield(first) => StatementType::Yield(
                match first {
                    Some(inner) => Some(inner.clone()),
                    None => None,
                },
            ),
            StatementType::Throw(first) => StatementType::Throw(first.clone()),
            StatementType::TryCatch(first) => StatementType::TryCatch(first.clone()),
            StatementType::Const(first) => StatementType::Const(first.clone()),
            StatementType::EnumDefinition(first) => StatementType::EnumDefinition(first.clone()),
            StatementType::StructDefinition(first) => StatementType::StructDefinition(
                first.clone(),
            ),
            StatementType::TypeDefinition(first) => StatementType::TypeDefinition(first.clone()),
            StatementType::ClassDefinition(first) => StatementType::ClassDefinition(first.clone()),
            StatementType::VarDefinition(first) => StatementType::VarDefinition(first.clone()),
            StatementType::FunctionDefinition(first) => StatementType::FunctionDefinition(
                first.clone(),
            ),
            StatementType::GlobalFunction(first) => StatementType::GlobalFunction(
                copy_names(first),
            ),
            StatementType::Global(first) => StatementType::Global(Box::new((&**first).clone())),
            StatementType::GlobalizeAllFunctions => StatementType::GlobalizeAllFunctions,
            StatementType::Untyped => StatementType::Untyped,
            StatementType::Thread(first) => StatementType::Thread(first.clone()),
            StatementType::WaitThread(first) => StatementType::WaitThread(first.clone()),
            StatementType::WaitThreadSolo(first) => StatementType::WaitThreadSolo(first.clone()),
            StatementType::DelayThread(first) => StatementType::DelayThread(first.clone()),
            StatementType::Wait(first) => StatementType::Wait(first.clone()),
            StatementType::Expression(first) => StatementType::Expression(first.clone()),
        }
    }
}

impl Clone for IfStatement<'_> {
    fn clone(&self) -> (copy: Self)
        ensures
            copy == *self,
        decreases self,
    {
        IfStatement {
            condition: self.condition.clone(),
            body: Box::new((&*self.body).clone()),
            else_body: match &self.else_body {
                Some(inner) => Some(Box::new((&**inner).clone())),
                None => None,
            },
        }
    }
}

impl Clone for WhileStatement<'_> {
    fn clone(&self) -> (copy: Self)
        ensures
            copy == *self,
        decreases self,
    {
        WhileStatement {
            condition: self.condition.clone(),
            body: Box::new((&*self.body).clone()),
        }
    }
}

impl Clone for ForStatement<'_> {
    fn clone(&self) -> (copy: Self)
        ensures
            copy == *self,
        decreases self,
    {
        ForStatement {
            initializer: match &self.initializer {
                Some(inner) => Some(inner.clone()),
                None => None,
            },
            condition: match &self.condition {
                Some(inner) => Some(inner.clone()),
                None => None,
            },
            increment: match &self.increment {
                Some(inner) => Some(inner.clone()),
                None => None,
            },
            body: Box::new((&*self.body).clone()),
        }
    }
}

impl Clone for ForeachStatement<'_> {
    fn clone(&self) -> (copy: Self)
        ensures
            copy == *self,
        decreases self,
    {
        ForeachStatement {
            index: match &self.index {
                Some(inner) => Some(inner.clone()),
                None => None,
            },
            value: self.value.clone(),
            array: self.array.clone(),
            body: Box::new((&*self.body).clone()),
        }
    }
}

impl Clone for SwitchStatement<'_> {
    fn clone(&self) -> (copy: Self)
        ensures
            copy == *self,
        decreases self,
    {
        SwitchStatement {
            value: self.value.clone(),
            cases: copy_switch_case_list(&self.cases),
        }
    }
}

impl Clone for Expression<'_> {
    fn clone(&self) -> (copy: Self)
        ensures
            copy == *self,
        decreases self,
    {
        match self {
            Expression::Literal(first) => Expression::Literal(*first),
            Expression::True => Expression::True,
            Expression::False => Expression::False,
            Expression::Null => Expression::Null,
            Expression::This => Expression::This,
            Expression::Base => Expression::Base,
            Expression::Var(first) => Expression::Var(*first),
            Expression::RootVar(first) => Expression::RootVar(*first),
            Expression::Parens(first) => Expression::Parens(Box::new((&**first).clone())),
            Expression::Index(first, second) => Expression::Index(
                Box::new((&**first).clone()),
                Box::new((&**second).clone()),
            ),
            Expression::Property(first, second) => Expression::Property(
                Box::new((&**first).clone()),
                *second,
            ),
            Expression::Call(first, second) => Expression::Call(
                Box::new((&**first).clone()),
                copy_expression_list(second),
            ),
            Expression::Prefix(first, second) => Expression::Prefix(
                *first,
                Box::new((&**second).clone()),
            ),
            Expression::Postfix(first, second) => Expression::Postfix(
                *first,
                Box::new((&**second).clone()),
            ),
            Expression::Binary(first, second, third) => Expression::Binary(
                *first,
                Box::new((&**second).clone()),
                Box::new((&**third).clone()),
            ),
            Expression::Ternary(first, second, third) => Expression::Ternary(
                Box::new((&**first).clone()),
                Box::new((&**second).clone()),
                Box::new((&**third).clone()),
            ),
            Expression::Array(first) => Expression::Array(copy_expression_list(first)),
            Expression::Table(first) => Expression::Table(copy_table_entry_list(first)),
            Expression::Vector(first, second, third) => Expression::Vector(
                Box::new((&**first).clone()),
                Box::new((&**second).clone()),
                Box::new((&**third).clone()),
            ),
            Expression::Function(first, second) => Expression::Function(
                match first {
                    Some(inner) => Some(*inner),
                    None => None,
                },
                second.clone(),
            ),
            Expression::Lambda(first, second) => Expression::Lambda(
                first.clone(),
                Box::new((&**second).clone()),
            ),
            Expression::Expect(first, second) => Expression::Expect(
                first.clone(),
                Box::new((&**second).clone()),
            ),
        }
    }
}

impl Clone for TryCatchStatement<'_> {
    fn clone(&self) -> (copy: Self)
        ensures
            copy == *self,
        decreases self,
    {
        TryCatchStatement {
            body: Box::new((&*self.body).clone()),
            name: self.name,
            handler: Box::new((&*self.handler).clone()),
        }
    }
}

impl Clone for ConstStatement<'_> {
    fn clone(&self) -> (copy: Self)
        ensures
            copy == *self,
        decreases self,
    {
        ConstStatement {
            ty: match &self.ty {
                Some(inner) => Some(inner.clone()),
                None => None,
            },
            name: self.name,
            value: self.value.clone(),
        }
    }
}

impl Clone for EnumDefinition<'_> {
    fn clone(&self) -> (copy: Self)
        ensures
            copy == *self,
        decreases self,
    {
        EnumDefinition {
            name: self.name,
            entries: copy_enum_entry_list(&self.entries),
        }
    }
}

impl Clone for StructDefinition<'_> {
    fn clone(&self) -> (copy: Self)
        ensures
            copy == *self,
        decreases self,
    {
        StructDefinition {
            name: self.name,
            fields: copy_struct_field_list(&self.fields),
        }
    }
}

impl Clone for TypeDefinition<'_> {
    fn clone(&self) -> (copy: Self)
        ensures
            copy == *self,
        decreases self,
    {
        TypeDefinition {
            name: self.name,
            ty: self.ty.clone(),
        }
    }
}

impl Clone for ClassDefinition<'_> {
    fn clone(&self) -> (copy: Self)
        ensures
            copy == *self,
        decreases self,
    {
        ClassDefinition {
            name: copy_names(&self.name),
            base: match &self.base {
                Some(inner) => Some(inner.clone()),
                None => None,
            },
            members: copy_class_member_list(&self.members),
        }
    }
}

impl Clone for VarDefinition<'_> {
    fn clone(&self) -> (copy: Self)
        ensures
            copy == *self,
        decreases self,
    {
        VarDefinition {
            ty: match &self.ty {
                Some(inner) => Some(inner.clone()),
                None => None,
            },
            variables: copy_variable_list(&self.variables),
        }
    }
}

impl Clone for FunctionDefinitionStatement<'_> {
    fn clone(&self) -> (copy: Self)
        ensures
            copy == *self,
        decreases self,
    {
        FunctionDefinitionStatement {
            return_type: match &self.return_type {
                Some(inner) => Some(inner.clone()),
                None => None,
            },
            name: copy_names(&self.name),
            definition: self.definition.clone(),
        }
    }
}

impl Clone for DelayThreadStatement<'_> {
    fn clone(&self) -> (copy: Self)
        ensures
            copy == *self,
        decreases self,
    {
        DelayThreadStatement {
            duration: self.duration.clone(),
            value: self.value.clone(),
        }
    }
}

impl Clone for ForInitializer<'_> {
    fn clone(&self) -> (copy: Self)
        ensures
            copy == *self,
        decreases self,
    {
        match self {
            ForInitializer::Definition(first) => ForInitializer::Definition(first.clone()),
            ForInitializer::Expression(first) => ForInitializer::Expression(first.clone()),
        }
    }
}

impl Clone for TypedName<'_> {
    fn clone(&self) -> (copy: Self)
        ensures
            copy == *self,
        decreases self,
    {
        TypedName {
            ty: match &self.ty {
                Some(inner) => Some(inner.clone()),
                None => None,
            },
            name: self.name,
        }
    }
}

impl Clone for SwitchCase<'_> {
    fn clone(&self) -> (copy: Self)
        ensures
            copy == *self,
        decreases self,
    {
        SwitchCase {
            value: match &self.value {
                Some(inner) => Some(inner.clone()),
                None => None,
            },
            body: copy_statement_list(&self.body),
        }
    }
}

impl Clone for TableEntry<'_> {
    fn clone(&self) -> (copy: Self)
        ensures
            copy == *self,
        decreases self,
    {
        match self {
            TableEntry::Property(first, second) => TableEntry::Property(*first, second.clone()),
            TableEntry::Index(first, second) => TableEntry::Index(first.clone(), second.clone()),
            TableEntry::Function(first, second) => TableEntry::Function(*first, second.clone()),
        }
    }
}

impl Clone for FunctionDefinition<'_> {
    fn clone(&self) -> (copy: Self)
        ensures
            copy == *self,
        decreases self,
    {
        FunctionDefinition {
            params: self.params.clone(),
            body: Box::new((&*self.body).clone()),
        }
    }
}

impl Clone for FunctionParams<'_> {
    fn clone(&self) -> (copy: Self)
        ensures
            copy == *self,
        decreases self,
    {
        FunctionParams {
            params: copy_function_param_list(&self.params),
            is_vararg: self.is_vararg,
        }
    }
}

impl Clone for Type<'_> {
    fn clone(&self) -> (copy: Self)
        ensures
            copy == *self,
        decreases self,
    {
        match self {
            Type::Plain(first) => Type::Plain(*first),
            Type::Generic(first, second) => Type::Generic(*first, copy_type_list(second)),
            Type::Array(first, second) => Type::Array(
                Box::new((&**first).clone()),
                match second {
                    Some(inner) => Some(Box::new((&**inner).clone())),
                    None => None,
                },
            ),
            Type::Reference(first) => Type::Reference(Box::new((&**first).clone())),
            Type::Nullable(first) => Type::Nullable(Box::new((&**first).clone())),
            Type::FunctionRef(first, second) => Type::FunctionRef(
                match first {
                    Some(inner) => Some(Box::new((&**inner).clone())),
                    None => None,
                },
                copy_function_ref_param_list(second),
            ),
            Type::Struct(first) => Type::Struct(copy_struct_field_list(first)),
        }
    }
}

impl Clone for EnumEntry<'_> {
    fn clone(&self) -> (copy: Self)
        ensures
            copy == *self,
        decreases self,
    {
        EnumEntry {
            name: self.name,
            value: match &self.value {
                Some(inner) => Some(inner.clone()),
                None => None,
            },
        }
    }
}

impl Clone for StructField<'_> {
    fn clone(&self) -> (copy: Self)
        ensures
            copy == *self,
        decreases self,
    {
        StructField {
            ty: self.ty.clone(),
            name: self.name,
            value: match &self.value {
                Some(inner) => Some(inner.clone()),
                None => None,
            },
        }
    }
}

impl Clone for ClassMember<'_> {
    fn clone(&self) -> (copy: Self)
        ensures
            copy == *self,
        decreases self,
    {
        ClassMember {
            is_static: self.is_static,
            ty: self.ty.clone(),
        }
    }
}

impl Clone for Variable<'_> {
    fn clone(&self) -> (copy: Self)
        ensures
            copy == *self,
        decreases self,
    {
        Variable {
            name: self.name,
            value: match &self.value {
                Some(inner) => Some(inner.clone()),
                None => None,
            },
        }
    }
}

impl Clone for FunctionParam<'_> {
    fn clone(&self) -> (copy: Self)
        ensures
            copy == *self,
        decreases self,
    {
        FunctionParam {
            ty: match &self.ty {
                Some(inner) => Some(inner.clone()),
                None => None,
            },
            name: self.name,
            default: match &self.default {
                Some(inner) => Some(inner.clone()),
                None => None,
            },
        }
    }
}

impl Clone for FunctionRefParam<'_> {
    fn clone(&self) -> (copy: Self)
        ensures
            copy == *self,
        decreases self,
    {
        FunctionRefParam {
            ty: self.ty.clone(),
            name: match &self.name {
                Some(inner) => Some(*inner),
                None => None,
            },
        }
    }
}

impl Clone for ClassMemberType<'_> {
    fn clone(&self) -> (copy: Self)
        ensures
            copy == *self,
        decreases self,
    {
        match self {
            ClassMemberType::Property(first, second) => ClassMemberType::Property(
                *first,
                second.clone(),
            ),
            ClassMemberType::Constructor(first) => ClassMemberType::Constructor(first.clone()),
            ClassMemberType::Function(first, second) => ClassMemberType::Function(
                *first,
                second.clone(),
            ),
        }
    }
}

fn copy_class_member_list<'s>(value: &List<ClassMember<'s>>) -> (copy: List<ClassMember<'s>>)
    ensures
        copy == *value,
    decreases value,
{
    match value {
        List::Empty => List::Empty,
        List::Item(first, rest) => List::Item(
            Box::new((&**first).clone()),
            Box::new(copy_class_member_list(rest)),
        ),
    }
}

fn copy_enum_entry_list<'s>(value: &List<EnumEntry<'s>>) -> (copy: List<EnumEntry<'s>>)
    ensures
        copy == *value,
    decreases value,
{
    match value {
        List::Empty => List::Empty,
        List::Item(first, rest) => List::Item(
            Box::new((&**first).clone()),
            Box::new(copy_enum_entry_list(rest)),
        ),
    }
}

fn copy_expression_list<'s>(value: &List<Expression<'s>>) -> (copy: List<Expression<'s>>)
    ensures
        copy == *value,
    decreases value,
{
    match value {
        List::Empty => List::Empty,
        List::Item(first, rest) => List::Item(
            Box::new((&**first).clone()),
            Box::new(copy_expression_list(rest)),
        ),
    }
}

fn copy_function_param_list<'s>(value: &List<FunctionParam<'s>>) -> (copy: List<FunctionParam<'s>>)
    ensures
        copy == *value,
    decreases value,
{
    match value {
        List::Empty => List::Empty,
        List::Item(first, rest) => List::Item(
            Box::new((&**first).clone()),
            Box::new(copy_function_param_list(rest)),
        ),
    }
}

fn copy_function_ref_param_list<'s>(
    value: &List<FunctionRefParam<'s>>,
) -> (copy: List<FunctionRefParam<'s>>)
    ensures
        copy == *value,
    decreases value,
{
    match value {
        List::Empty => List::Empty,
        List::Item(first, rest) => List::Item(
            Box::new((&**first).clone()),
            Box::new(copy_function_ref_param_list(rest)),
        ),
    }
}

fn copy_identifier_list<'s>(value: &List<Identifier<'s>>) -> (copy: List<Identifier<'s>>)
    ensures
        copy == *value,
    decreases value,
{
    match value {
        List::Empty => List::Empty,
        List::Item(first, rest) => List::Item(
            Box::new(**first),
            Box::new(copy_identifier_list(rest)),
        ),
    }
}

fn copy_statement_list<'s>(value: &List<Statement<'s>>) -> (copy: List<Statement<'s>>)
    ensures
        copy == *value,
    decreases value,
{
    match value {
        List::Empty => List::Empty,
        List::Item(first, rest) => List::Item(
            Box::new((&**first).clone()),
            Box::new(copy_statement_list(rest)),
        ),
    }
}

fn copy_struct_field_list<'s>(value: &List<StructField<'s>>) -> (copy: List<StructField<'s>>)
    ensures
        copy == *value,
    decreases value,
{
    match value {
        List::Empty => List::Empty,
        List::Item(first, rest) => List::Item(
            Box::new((&**first).clone()),
            Box::new(copy_struct_field_list(rest)),
        ),
    }
}

fn copy_switch_case_list<'s>(value: &List<SwitchCase<'s>>) -> (copy: List<SwitchCase<'s>>)
    ensures
        copy == *value,
    decreases value,
{
    match value {
        List::Empty => List::Empty,
        List::Item(first, rest) => List::Item(
            Box::new((&**first).clone()),
            Box::new(copy_switch_case_list(rest)),
        ),
    }
}

fn copy_table_entry_list<'s>(value: &List<TableEntry<'s>>) -> (copy: List<TableEntry<'s>>)
    ensures
        copy == *value,
    decreases value,
{
    match value {
        List::Empty => List::Empty,
        List::Item(first, rest) => List::Item(
            Box::new((&**first).clone()),
            Box::new(copy_table_entry_list(rest)),
        ),
    }
}

fn copy_type_list<'s>(value: &List<Type<'s>>) -> (copy: List<Type<'s>>)
    ensures
        copy == *value,
    decreases value,
{
    match value {
        List::Empty => List::Empty,
        List::Item(first, rest) => List::Item(
            Box::new((&**first).clone()),
            Box::new(copy_type_list(rest)),
        ),
    }
}

fn copy_variable_list<'s>(value: &List<Variable<'s>>) -> (copy: List<Variable<'s>>)
    ensures
        copy == *value,
    decreases value,
{
    match value {
        List::Empty => List::Empty,
        List::Item(first, rest) => List::Item(
            Box::new((&**first).clone()),
            Box::new(copy_variable_list(rest)),
        ),
    }
}

fn copy_names<'s>(value: &SeparatedList1<Identifier<'s>>) -> (copy: SeparatedList1<Identifier<'s>>)
    ensures
        copy == *value,
{
    SeparatedList1 {
        items: copy_identifier_list(&value.items),
        last_item: Box::new(*value.last_item),
    }
}

impl Clone for Program<'_> {
    fn clone(&self) -> (copy: Self)
        ensures
            copy.statements@ == self.statements@,
    {
        let statements = self.statements.clone();
        assert(statements@ =~= self.statements@) by {
            assert forall|i: int| 0 <= i < statements@.len() implies statements@[i]
                == self.statements@[i] by {
                assert(cloned(self.statements@[i], statements@[i]));
            }
        }
        Program { statements }
    }
}

} // verus!
