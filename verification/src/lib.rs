//! Lexical-scope and symbol-resolution engine for the name-resolution pass of
//! a compiler front end.
//!
//! For every identifier and type-alias reference met while walking one parsed
//! module, the [`scope::Scope`] facade resolves the textual name to a single
//! globally unique [`symbol::Symbol`], detects and recovers from shadowing,
//! keeps nested lexical scopes with exact rollback, and tracks which names are
//! module-local declarations versus names imported from other modules.

pub mod abilities;
pub mod alias;
pub mod bits;
pub mod debug_names;
pub mod ident;
pub mod laws;
pub mod model;
pub mod problem;
pub mod region;
pub mod scope;
pub mod scoped_ident_ids;
pub mod symbol;
