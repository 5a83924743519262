//! Runtime core of a small conversational-flow scripting language:
//! the literal grammar, the abstract syntax tree, the execution-state
//! machine, the built-in dispatch layer, and the step interpreter.

pub mod ast;
pub mod num_text;
pub mod parse_literal;
pub mod state_context;
pub mod message;
pub mod errors;
pub mod interpreter;
pub mod builtins;
