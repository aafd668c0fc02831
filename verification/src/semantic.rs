//! Scopes and type checking.
pub mod scope_tree;
pub mod type_checker;
pub mod types;
pub mod typing;
