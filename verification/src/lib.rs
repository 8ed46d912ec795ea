//! Syntax of the attributes that decorate a Solidity function declaration and
//! of punctuation-separated lists of variable declarations, with machine-checked
//! contracts for parsing, uniqueness and canonical signature rendering.

pub mod attribute;
pub mod clause;
pub mod error;
pub mod function;
pub mod laws;
pub mod list;
pub mod path;
pub mod text;
pub mod token;
pub mod variable;
