pub mod control;
pub mod definition;
pub mod entry;
pub mod expression;
pub mod function;
pub mod name;
pub mod operand;
pub mod read;
pub mod spine;
pub mod statement;
pub mod type_;
pub mod type_spine;
pub mod variable;
