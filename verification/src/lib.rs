//! Front end of a SQL-statement processor: a character-level lexer with
//! escape and quoting semantics, and a clause-level parser for SELECT
//! statements realized as an explicit state machine.
//!
//! Raw statement text goes through [`lex::lex_statement`] to become an
//! ordered token sequence, which [`parse::parse_statement`] turns into a
//! structured [`parse::Statement`] value or an error naming the offending
//! token and the active parser state. Both stages carry exact contracts
//! against spec-level models of their state machines; [`laws`] proves the
//! properties that relate them across inputs, and [`tokenize`] offers a
//! lighter whitespace-only splitter with the same escape and quoting
//! semantics.

pub mod laws;
pub mod lex;
pub mod parse;
pub mod tokenize;
