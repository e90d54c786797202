use vstd::prelude::*;

verus! {

/// Globally unique identifier for a declared name: the owning module paired
/// with the identifier index that the module's identifier table handed out.
/// Immutable once created; uniqueness across modules needs no coordination
/// because every symbol embeds its owning module.
#[derive(Clone, Copy, PartialEq, Eq, Structural, Debug)]
pub struct Symbol {
    pub module_id: u32,
    pub ident_id: u32,
}

impl Symbol {
    pub fn new(module_id: u32, ident_id: u32) -> (s: Symbol)
        ensures
            s == (Symbol { module_id, ident_id }),
    {
        Symbol { module_id, ident_id }
    }
}

} // verus!
