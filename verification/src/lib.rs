//! Overload call evaluation for a Python type checker.
pub mod args;
pub mod gas;
pub mod types;
pub mod expand;
pub mod expander;
pub mod arity;
pub mod search;
pub mod call;
pub mod nonempty;
pub mod placeholders;
pub mod test_env;
pub mod report;
