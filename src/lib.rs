//! Parser for a 65816-family assembly dialect: expressions with operator
//! precedence, and processor instructions whose addressing mode is decided
//! by the shape of their operand.
pub mod ast;
pub mod grammar;
pub mod laws;
pub mod parser;
pub mod xid;
