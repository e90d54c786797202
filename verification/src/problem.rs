use vstd::prelude::*;

verus! {

use crate::ident::Ident;
use crate::region::Loc;
use crate::region::Region;

/// Recoverable name-resolution errors. Every operation that can produce one
/// of these still hands the caller a usable symbol, so canonicalization of
/// the rest of the module keeps going and the error is only accumulated for
/// later reporting.
#[derive(Debug)]
pub enum RuntimeError {
    /// Reference to a name that no visible local binding and no import
    /// covers; carries every name currently in scope for suggestions.
    LookupNotInScope { loc: Loc<Ident>, names_in_scope: Vec<Ident> },
    /// An opaque reference whose name resolves locally to no alias at all,
    /// or to a transparent one (then `opt_defined_alias` points at that
    /// alias's header); carries the locally-declared opaque names for
    /// suggestions.
    OpaqueNotDefined {
        usage: Loc<Ident>,
        opaques_in_scope: Vec<Ident>,
        opt_defined_alias: Option<Region>,
    },
    /// An opaque reference whose name only resolves through an import:
    /// opaque types may be referenced only inside their declaring module.
    OpaqueOutsideScope { opaque: Ident, referenced_region: Region, imported_region: Region },
}

} // verus!
