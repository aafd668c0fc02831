//! What the type checker knows of a name.
use vstd::prelude::*;

use crate::common::types::TypeName;

verus! {

/// The type of a declared variable and whether it may be assigned to.
#[derive(Debug, PartialEq, Eq, Clone, Copy, Structural)]
pub struct SymbolInfo {
    pub type_of: TypeName,
    pub is_mutable: bool,
}

/// The names in sight at a point of a program, each with what is known of
/// it.
pub type Context = Map<Seq<char>, SymbolInfo>;

} // verus!
