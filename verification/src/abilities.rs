use vstd::prelude::*;

verus! {

use crate::symbol::Symbol;

/// The abilities collaborator as the scope sees it: which symbols are
/// ability-member names, and which specialization links were registered.
pub struct AbilitiesView {
    pub members: Seq<Symbol>,
    pub specializations: Seq<(Symbol, Symbol)>,
}

/// The narrow interface of the abilities bookkeeping engine that the scope
/// consults on a name collision: one membership query and one registration
/// call. The scope holds no other ability knowledge.
#[derive(Debug)]
pub struct AbilitiesStore {
    members: Vec<Symbol>,
    specializations: Vec<(Symbol, Symbol)>,
}

impl View for AbilitiesStore {
    type V = AbilitiesView;

    closed spec fn view(&self) -> AbilitiesView {
        AbilitiesView { members: self.members@, specializations: self.specializations@ }
    }
}

impl Default for AbilitiesStore {
    fn default() -> (r: Self)
        ensures
            r@.members == Seq::<Symbol>::empty(),
            r@.specializations == Seq::<(Symbol, Symbol)>::empty(),
    {
        AbilitiesStore { members: Vec::new(), specializations: Vec::new() }
    }
}

impl AbilitiesStore {
    /// Records that `member` is the name of an ability member, so a later
    /// re-declaration of its name counts as specialization, not shadowing.
    pub fn register_ability_member(&mut self, member: Symbol)
        ensures
            final(self)@.members == old(self)@.members.push(member),
            final(self)@.specializations == old(self)@.specializations,
    {
        self.members.push(member);
    }

    /// Whether `symbol` is a registered ability-member name.
    pub fn is_ability_member_name(&self, symbol: Symbol) -> (r: bool)
        ensures
            r == self@.members.contains(symbol),
    {
        let n: usize = self.members.len();
        let mut i: usize = 0;
        while i < n
            invariant
                n == self@.members.len(),
                i <= n,
                forall|j: int| 0 <= j < i ==> self@.members[j] != symbol,
            decreases n - i,
        {
            if self.members[i] == symbol {
                return true;
            }
            i = i + 1;
        }
        false
    }

    /// Records that `specializing` implements the ability member named by
    /// `ability_member`.
    pub fn register_specializing_symbol(&mut self, specializing: Symbol, ability_member: Symbol)
        ensures
            final(self)@.members == old(self)@.members,
            final(self)@.specializations == old(self)@.specializations.push(
                (specializing, ability_member),
            ),
    {
        self.specializations.push((specializing, ability_member));
    }
}

} // verus!
