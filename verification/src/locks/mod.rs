//! The locks and permissions DSL.
//!
//! A lock string has the shape `accesstype:expr`, where `expr` is a boolean
//! tree of lock-function calls combined with `and`, `or`, `not` and
//! parentheses. The pipeline has three stages: [`parse`] turns the string into
//! a syntactic [`ParsedLock`]; [`resolve`] lowers the known functions into a
//! typed [`Lock`], rejecting unknown functions and bad arity; and
//! [`Lock::evaluate`] walks the typed tree against a [`LockContext`].

pub mod ast;
pub mod eval;
pub mod parser;
pub mod resolve;
