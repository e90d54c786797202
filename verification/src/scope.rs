use vstd::prelude::*;

verus! {

use crate::abilities::AbilitiesStore;
use crate::alias::Alias;
use crate::alias::AliasKind;
use crate::alias::AliasVar;
use crate::alias::AliasView;
use crate::alias::TypeBody;
use crate::alias::body_vars_bound;
use crate::alias::create_alias;
use crate::alias::loc_vars_view;
use crate::alias::make_alias_view;
use crate::ident::Ident;
use crate::ident::IdentIds;
use crate::ident::MAX_IDENT_ENTRIES;
use crate::ident::text_seq;
use crate::model::ImportView;
use crate::model::ScopeView;
use crate::model::all_texts;
use crate::model::alias_insert_effect;
use crate::model::alias_resolution;
use crate::model::commit_effect;
use crate::model::commit_symbol;
use crate::model::fresh_symbol;
use crate::model::has_any;
use crate::model::import_effect;
use crate::model::import_match;
use crate::model::import_resolution;
use crate::model::is_first_where;
use crate::model::issued;
use crate::model::key_match;
use crate::model::lemma_commit_issued;
use crate::model::lemma_first_unique;
use crate::model::lemma_scopeless_issued;
use crate::model::lemma_unique_issued;
use crate::model::local_resolution;
use crate::model::opaque_names;
use crate::model::opaque_names_upto;
use crate::model::resolution;
use crate::model::rollback_effect;
use crate::model::scopeless_effect;
use crate::model::specialize_effect;
use crate::model::unique_effect;
use crate::problem::RuntimeError;
use crate::region::Loc;
use crate::region::Region;
use crate::scoped_ident_ids::ScopedIdentIds;
use crate::symbol::Symbol;

/// Module ids of the built-in modules whose names every scope imports by
/// default.
pub const MODULE_BOOL: u32 = 1;

pub const MODULE_RESULT: u32 = 2;

pub const MODULE_LIST: u32 = 3;

pub const MODULE_STR: u32 = 4;

pub const MODULE_DICT: u32 = 5;

pub const MODULE_SET: u32 = 6;

pub const MODULE_BOX: u32 = 7;

/// A convenient home module id for scopes outside any real module tree.
pub const MODULE_ATTR: u32 = 8;

/// One module-wide import: the name it is known by here, the foreign symbol
/// it stands for, and the region of its declaration.
#[derive(Debug)]
pub struct ImportEntry {
    pub name: Ident,
    pub symbol: Symbol,
    pub region: Region,
}

/// One alias-registry slot: insertion-ordered, keyed by the alias's symbol.
#[derive(Debug)]
pub struct AliasEntry {
    pub key: Symbol,
    pub alias: Alias,
}

/// The names every scope starts out importing: the built-in types and tags.
pub open spec fn default_import_views() -> Seq<ImportView> {
    seq![
        ImportView {
            name: "Box"@,
            symbol: Symbol { module_id: MODULE_BOX, ident_id: 0 },
            region: Region::zero_spec(),
        },
        ImportView {
            name: "Set"@,
            symbol: Symbol { module_id: MODULE_SET, ident_id: 0 },
            region: Region::zero_spec(),
        },
        ImportView {
            name: "Dict"@,
            symbol: Symbol { module_id: MODULE_DICT, ident_id: 0 },
            region: Region::zero_spec(),
        },
        ImportView {
            name: "Str"@,
            symbol: Symbol { module_id: MODULE_STR, ident_id: 0 },
            region: Region::zero_spec(),
        },
        ImportView {
            name: "Ok"@,
            symbol: Symbol { module_id: MODULE_RESULT, ident_id: 0 },
            region: Region::zero_spec(),
        },
        ImportView {
            name: "False"@,
            symbol: Symbol { module_id: MODULE_BOOL, ident_id: 0 },
            region: Region::zero_spec(),
        },
        ImportView {
            name: "List"@,
            symbol: Symbol { module_id: MODULE_LIST, ident_id: 0 },
            region: Region::zero_spec(),
        },
        ImportView {
            name: "True"@,
            symbol: Symbol { module_id: MODULE_BOOL, ident_id: 1 },
            region: Region::zero_spec(),
        },
        ImportView {
            name: "Err"@,
            symbol: Symbol { module_id: MODULE_RESULT, ident_id: 1 },
            region: Region::zero_spec(),
        },
    ]
}

/// The scope of one module while its syntax tree is walked: locals with
/// visibility, module-wide imports, the alias registry, and the abilities
/// collaborator.
pub struct Scope {
    /// The type aliases currently in scope.
    pub aliases: Vec<AliasEntry>,
    /// The abilities currently in scope, and their implementors.
    pub abilities_store: AbilitiesStore,
    /// The module being processed; unqualified names become its symbols.
    home: u32,
    /// The first `exposed_ident_count` identifiers are the module's exposed
    /// names, pre-seeded so their indices stay stable for other modules.
    exposed_ident_count: usize,
    /// Identifiers imported in the module header; never rolled back.
    imports: Vec<ImportEntry>,
    /// Identifiers defined in the current module, with visibility.
    pub locals: ScopedIdentIds,
}

impl View for Scope {
    type V = ScopeView;

    closed spec fn view(&self) -> ScopeView {
        ScopeView {
            home: self.home,
            exposed_count: self.exposed_ident_count as int,
            entries: self.locals@.entries,
            imports: Seq::new(
                self.imports@.len(),
                |i: int|
                    ImportView {
                        name: self.imports@[i].name@,
                        symbol: self.imports@[i].symbol,
                        region: self.imports@[i].region,
                    },
            ),
            aliases: Seq::new(
                self.aliases@.len(),
                |i: int| (self.aliases@[i].key, self.aliases@[i].alias@),
            ),
            abilities: self.abilities_store@,
        }
    }
}

impl Scope {
    /// Well-formedness: the locals' stores are in lock-step, the exposed
    /// prefix fits the table, and alias keys are unique. Abstract to
    /// callers; every constructor establishes it and every method keeps it.
    pub closed spec fn wf(&self) -> bool {
        &&& self.locals.wf()
        &&& self@.home == self.locals@.home
        &&& crate::model::wf(self@)
    }

    /// A fresh scope for module `home`, pre-seeded with the identifiers the
    /// module's header exposes (their indices must stay stable for other
    /// modules) and with the default built-in imports.
    pub fn new(home: u32, initial_ident_ids: IdentIds) -> (r: Scope)
        requires
            initial_ident_ids@.len() <= MAX_IDENT_ENTRIES,
        ensures
            r.wf(),
            r@.home == home,
            r@.exposed_count == initial_ident_ids@.len(),
            r@.entries == Seq::new(
                initial_ident_ids@.len(),
                |i: int|
                    crate::model::EntryView {
                        text: initial_ident_ids@[i],
                        visible: false,
                        region: Region::zero_spec(),
                    },
            ),
            r@.imports == default_import_views(),
            r@.aliases == Seq::<(Symbol, AliasView)>::empty(),
            r@.abilities.members == Seq::<Symbol>::empty(),
            r@.abilities.specializations == Seq::<(Symbol, Symbol)>::empty(),
    {
        let exposed_ident_count = initial_ident_ids.len();
        let locals = ScopedIdentIds::from_ident_ids(home, initial_ident_ids);
        let mut imports: Vec<ImportEntry> = Vec::new();
        imports.push(
            ImportEntry {
                name: Ident::from_text("Box"),
                symbol: Symbol::new(MODULE_BOX, 0),
                region: Region::zero(),
            },
        );
        imports.push(
            ImportEntry {
                name: Ident::from_text("Set"),
                symbol: Symbol::new(MODULE_SET, 0),
                region: Region::zero(),
            },
        );
        imports.push(
            ImportEntry {
                name: Ident::from_text("Dict"),
                symbol: Symbol::new(MODULE_DICT, 0),
                region: Region::zero(),
            },
        );
        imports.push(
            ImportEntry {
                name: Ident::from_text("Str"),
                symbol: Symbol::new(MODULE_STR, 0),
                region: Region::zero(),
            },
        );
        imports.push(
            ImportEntry {
                name: Ident::from_text("Ok"),
                symbol: Symbol::new(MODULE_RESULT, 0),
                region: Region::zero(),
            },
        );
        imports.push(
            ImportEntry {
                name: Ident::from_text("False"),
                symbol: Symbol::new(MODULE_BOOL, 0),
                region: Region::zero(),
            },
        );
        imports.push(
            ImportEntry {
                name: Ident::from_text("List"),
                symbol: Symbol::new(MODULE_LIST, 0),
                region: Region::zero(),
            },
        );
        imports.push(
            ImportEntry {
                name: Ident::from_text("True"),
                symbol: Symbol::new(MODULE_BOOL, 1),
                region: Region::zero(),
            },
        );
        imports.push(
            ImportEntry {
                name: Ident::from_text("Err"),
                symbol: Symbol::new(MODULE_RESULT, 1),
                region: Region::zero(),
            },
        );
        let r = Scope {
            aliases: Vec::new(),
            abilities_store: AbilitiesStore::default(),
            home,
            exposed_ident_count,
            imports,
            locals,
        };
        proof {
            assert(r@.imports =~= default_import_views());
            assert(r@.aliases =~= Seq::<(Symbol, AliasView)>::empty());
        }
        r
    }

    /// Is `ident` resolvable right now, among the locals first, then the
    /// imports?
    fn scope_contains(&self, ident: &Ident) -> (r: Option<(Symbol, Region)>)
        requires
            self.wf(),
        ensures
            r == resolution(self@, ident@),
    {
        match self.locals.has_in_scope(ident) {
            Some(found) => Some(found),
            None => {
                let n: usize = self.imports.len();
                let mut i: usize = 0;
                while i < n
                    invariant
                        self.wf(),
                        local_resolution(self@.home, self@.entries, ident@) is None,
                        n == self@.imports.len(),
                        i <= n,
                        forall|j: int|
                            0 <= j < i ==> !import_match(ident@)(#[trigger] self@.imports[j]),
                    decreases n - i,
                {
                    if self.imports[i].name.text_eq(ident) {
                        proof {
                            lemma_first_unique(self@.imports, import_match(ident@), i as int);
                        }
                        return Some((self.imports[i].symbol, self.imports[i].region));
                    }
                    i = i + 1;
                }
                proof {
                    assert(!has_any(self@.imports, import_match(ident@)));
                }
                None
            },
        }
    }

    /// Resolves a referenced name to its symbol. On failure the error
    /// carries every name currently in scope, for suggestions.
    pub fn lookup(&self, ident: &Ident, region: Region) -> (r: Result<Symbol, RuntimeError>)
        requires
            self.wf(),
        ensures
            match resolution(self@, ident@) {
                Some(found) => r matches Ok(s) && s == found.0,
                None => r matches Err(e) && (e matches RuntimeError::LookupNotInScope {
                    loc,
                    names_in_scope: names,
                } && loc.region == region && loc.value@ == ident@ && text_seq(names@)
                    == crate::model::names_in_scope(self@)),
            },
    {
        match self.scope_contains(ident) {
            Some((symbol, _)) => Ok(symbol),
            None => Err(
                RuntimeError::LookupNotInScope {
                    loc: Loc { region, value: ident.clone() },
                    names_in_scope: self.idents_in_scope(),
                },
            ),
        }
    }

    /// Every name currently resolvable, imports first, then the visible
    /// locals in allocation order.
    pub fn idents_in_scope(&self) -> (r: Vec<Ident>)
        requires
            self.wf(),
        ensures
            text_seq(r@) == crate::model::names_in_scope(self@),
    {
        let n: usize = self.imports.len();
        let mut r: Vec<Ident> = Vec::new();
        let mut i: usize = 0;
        while i < n
            invariant
                self.wf(),
                n == self@.imports.len(),
                i <= n,
                r@.len() == i,
                forall|j: int| 0 <= j < i ==> (#[trigger] r@[j])@ == self@.imports[j].name,
            decreases n - i,
        {
            r.push(self.imports[i].name.clone());
            i = i + 1;
        }
        let mut tail = self.locals.idents_in_scope();
        r.append(&mut tail);
        proof {
            assert(text_seq(r@) =~= crate::model::names_in_scope(self@));
        }
        r
    }

    /// Makes `ident` resolvable. If the identifier is one the module header
    /// exposes, the entry it was pre-seeded with is re-activated, so other
    /// modules' references to it keep their identifier index; otherwise a
    /// fresh entry is allocated. Only called when nothing resolves `ident`.
    fn commit_introduction(&mut self, ident: &Ident, region: Region) -> (s: Symbol)
        requires
            old(self).wf(),
            old(self)@.entries.len() < MAX_IDENT_ENTRIES,
            local_resolution(old(self)@.home, old(self)@.entries, ident@) is None,
        ensures
            final(self).wf(),
            s == commit_symbol(old(self)@, ident@),
            final(self)@ == commit_effect(old(self)@, ident@, region),
            !issued(old(self)@).contains(s),
            issued(final(self)@) == issued(old(self)@).insert(s),
    {
        proof {
            lemma_commit_issued(old(self)@, ident@, region);
        }
        let target: Option<u32> = match self.locals.first_id_of(ident) {
            Some(id) => {
                if (id as usize) < self.exposed_ident_count {
                    Some(id)
                } else {
                    None
                }
            },
            None => None,
        };
        match target {
            Some(id) => {
                self.locals.reactivate(id, region);
                proof {
                    assert(self@ == commit_effect(old(self)@, ident@, region));
                }
                Symbol::new(self.home, id)
            },
            None => {
                let id = self.locals.introduce_into_scope(ident, region);
                proof {
                    assert(self@ == commit_effect(old(self)@, ident@, region));
                }
                Symbol::new(self.home, id)
            },
        }
    }

    /// Introduces `ident` as a new module-local declaration. If the name
    /// already resolves, nothing changes and the error reports the original
    /// binding's region; the caller synthesizes its own recovery symbol.
    pub fn introduce_without_shadow_symbol(&mut self, ident: &Ident, region: Region) -> (r: Result<
        Symbol,
        (Region, Loc<Ident>),
    >)
        requires
            old(self).wf(),
            old(self)@.entries.len() < MAX_IDENT_ENTRIES,
        ensures
            final(self).wf(),
            match resolution(old(self)@, ident@) {
                Some(found) => {
                    &&& r matches Err(e) && e.0 == found.1 && e.1.region == region && e.1.value@
                        == ident@
                    &&& final(self)@ == old(self)@
                },
                None => {
                    &&& r matches Ok(s) && s == commit_symbol(old(self)@, ident@)
                    &&& final(self)@ == commit_effect(old(self)@, ident@, region)
                    &&& !issued(old(self)@).contains(commit_symbol(old(self)@, ident@))
                    &&& issued(final(self)@) == issued(old(self)@).insert(
                        commit_symbol(old(self)@, ident@),
                    )
                },
            },
    {
        match self.scope_contains(ident) {
            Some((_, original_region)) => {
                let shadow = Loc { region, value: ident.clone() };
                Err((original_region, shadow))
            },
            None => Ok(self.commit_introduction(ident, region)),
        }
    }

    /// Introduces `ident`. If the name already resolves this is an illegal
    /// shadow: a fresh scopeless symbol is still allocated and returned
    /// inside the error, so the canonical tree downstream always has a
    /// usable, unique symbol for the new binding and compilation keeps
    /// going.
    pub fn introduce(&mut self, ident: Ident, region: Region) -> (r: Result<
        Symbol,
        (Region, Loc<Ident>, Symbol),
    >)
        requires
            old(self).wf(),
            old(self)@.entries.len() < MAX_IDENT_ENTRIES,
        ensures
            final(self).wf(),
            match resolution(old(self)@, ident@) {
                Some(found) => {
                    &&& r matches Err(e) && e.0 == found.1 && e.1.region == region && e.1.value@
                        == ident@ && e.2 == fresh_symbol(old(self)@)
                    &&& final(self)@ == scopeless_effect(old(self)@, ident@, region)
                    &&& !issued(old(self)@).contains(fresh_symbol(old(self)@))
                    &&& issued(final(self)@) == issued(old(self)@).insert(fresh_symbol(old(self)@))
                },
                None => {
                    &&& r matches Ok(s) && s == commit_symbol(old(self)@, ident@)
                    &&& final(self)@ == commit_effect(old(self)@, ident@, region)
                    &&& !issued(old(self)@).contains(commit_symbol(old(self)@, ident@))
                    &&& issued(final(self)@) == issued(old(self)@).insert(
                        commit_symbol(old(self)@, ident@),
                    )
                },
            },
    {
        match self.introduce_without_shadow_symbol(&ident, region) {
            Ok(symbol) => Ok(symbol),
            Err((original_region, shadow)) => {
                let symbol = self.scopeless_symbol(&ident, region);
                Err((original_region, shadow, symbol))
            },
        }
    }

    /// Introduces `ident`, treating a collision with a registered
    /// ability-member name as specialization rather than shadowing: a fresh
    /// symbol is minted, registered with the abilities collaborator as
    /// specializing the member, and returned together with the member's
    /// symbol. A collision with anything else is an illegal shadow, exactly
    /// as in [`Self::introduce`].
    pub fn introduce_or_shadow_ability_member(&mut self, ident: Ident, region: Region) -> (r:
        Result<(Symbol, Option<Symbol>), (Region, Loc<Ident>, Symbol)>)
        requires
            old(self).wf(),
            old(self)@.entries.len() < MAX_IDENT_ENTRIES,
        ensures
            final(self).wf(),
            match resolution(old(self)@, ident@) {
                Some(found) => {
                    &&& !issued(old(self)@).contains(fresh_symbol(old(self)@))
                    &&& issued(final(self)@) == issued(old(self)@).insert(fresh_symbol(old(self)@))
                    &&& if old(self)@.abilities.members.contains(found.0) {
                        &&& r matches Ok(p) && p.0 == fresh_symbol(old(self)@) && p.1 == Some(
                            found.0,
                        )
                        &&& final(self)@ == specialize_effect(
                            scopeless_effect(old(self)@, ident@, region),
                            fresh_symbol(old(self)@),
                            found.0,
                        )
                    } else {
                        &&& r matches Err(e) && e.0 == found.1 && e.1.region == region
                            && e.1.value@ == ident@ && e.2 == fresh_symbol(old(self)@)
                        &&& final(self)@ == scopeless_effect(old(self)@, ident@, region)
                    }
                },
                None => {
                    &&& r matches Ok(p) && p.0 == commit_symbol(old(self)@, ident@) && p.1 is None
                    &&& final(self)@ == commit_effect(old(self)@, ident@, region)
                    &&& !issued(old(self)@).contains(commit_symbol(old(self)@, ident@))
                    &&& issued(final(self)@) == issued(old(self)@).insert(
                        commit_symbol(old(self)@, ident@),
                    )
                },
            },
    {
        match self.scope_contains(&ident) {
            Some((original_symbol, original_region)) => {
                let shadow_symbol = self.scopeless_symbol(&ident, region);
                if self.abilities_store.is_ability_member_name(original_symbol) {
                    self.abilities_store.register_specializing_symbol(
                        shadow_symbol,
                        original_symbol,
                    );
                    proof {
                        assert(self@ == specialize_effect(
                            scopeless_effect(old(self)@, ident@, region),
                            fresh_symbol(old(self)@),
                            original_symbol,
                        ));
                    }
                    Ok((shadow_symbol, Some(original_symbol)))
                } else {
                    let shadow = Loc { region, value: ident };
                    Err((original_region, shadow, shadow_symbol))
                }
            },
            None => {
                let new_symbol = self.commit_introduction(&ident, region);
                Ok((new_symbol, None))
            },
        }
    }

    /// Mints a symbol for `ident` without making the name resolvable: for
    /// pattern-guard internals, and for shadow-error recovery. The name can
    /// still be introduced later.
    pub fn scopeless_symbol(&mut self, ident: &Ident, region: Region) -> (s: Symbol)
        requires
            old(self).wf(),
            old(self)@.entries.len() < MAX_IDENT_ENTRIES,
        ensures
            final(self).wf(),
            s == fresh_symbol(old(self)@),
            final(self)@ == scopeless_effect(old(self)@, ident@, region),
            !issued(old(self)@).contains(s),
            issued(final(self)@) == issued(old(self)@).insert(s),
    {
        proof {
            lemma_scopeless_issued(old(self)@, ident@, region);
        }
        let s = self.locals.scopeless_symbol(ident, region);
        proof {
            assert(self@ == scopeless_effect(old(self)@, ident@, region));
        }
        s
    }

    /// Mints a unique symbol with no resolvable name at all, for bindings
    /// the compiler synthesizes (closures, for example).
    pub fn gen_unique_symbol(&mut self) -> (s: Symbol)
        requires
            old(self).wf(),
            old(self)@.entries.len() < MAX_IDENT_ENTRIES,
        ensures
            final(self).wf(),
            s == fresh_symbol(old(self)@),
            final(self)@ == unique_effect(old(self)@),
            !issued(old(self)@).contains(s),
            issued(final(self)@) == issued(old(self)@).insert(s),
    {
        proof {
            lemma_unique_issued(old(self)@);
        }
        let id = self.locals.gen_unique();
        proof {
            assert(self@ == unique_effect(old(self)@));
        }
        Symbol::new(self.home, id)
    }

    /// Imports a foreign symbol into the module-wide scope under `ident`.
    /// The first import of a name wins: importing it again fails, reporting
    /// the earlier import. Locals are not consulted — imports are resolved
    /// from the module header before any local declaration exists.
    pub fn import(&mut self, ident: Ident, symbol: Symbol, region: Region) -> (r: Result<
        (),
        (Symbol, Region),
    >)
        requires
            old(self).wf(),
        ensures
            final(self).wf(),
            match import_resolution(old(self)@.imports, ident@) {
                Some(prev) => {
                    &&& r matches Err(e) && e.0 == prev.0 && e.1 == prev.1
                    &&& final(self)@ == old(self)@
                },
                None => {
                    &&& r is Ok
                    &&& final(self)@ == import_effect(old(self)@, ident@, symbol, region)
                },
            },
    {
        let n: usize = self.imports.len();
        let mut i: usize = 0;
        while i < n
            invariant
                self.wf(),
                self@ == old(self)@,
                n == self@.imports.len(),
                i <= n,
                forall|j: int| 0 <= j < i ==> !import_match(ident@)(#[trigger] self@.imports[j]),
            decreases n - i,
        {
            if self.imports[i].name.text_eq(&ident) {
                proof {
                    lemma_first_unique(self@.imports, import_match(ident@), i as int);
                }
                return Err((self.imports[i].symbol, self.imports[i].region));
            }
            i = i + 1;
        }
        proof {
            assert(!has_any(self@.imports, import_match(ident@)));
        }
        self.imports.push(ImportEntry { name: ident, symbol, region });
        proof {
            assert(self@.imports =~= import_effect(old(self)@, ident@, symbol, region).imports);
            assert(self@ == import_effect(old(self)@, ident@, symbol, region));
        }
        Ok(())
    }

    /// The alias registered under `symbol`, if any.
    pub fn lookup_alias(&self, symbol: Symbol) -> (r: Option<&Alias>)
        requires
            self.wf(),
        ensures
            match r {
                Some(alias) => alias_resolution(self@.aliases, symbol) == Some(alias@),
                None => alias_resolution(self@.aliases, symbol) is None,
            },
    {
        let n: usize = self.aliases.len();
        let mut i: usize = 0;
        while i < n
            invariant
                self.wf(),
                n == self@.aliases.len(),
                i <= n,
                forall|j: int| 0 <= j < i ==> !key_match(symbol)(#[trigger] self@.aliases[j]),
            decreases n - i,
        {
            if self.aliases[i].key == symbol {
                proof {
                    lemma_first_unique(self@.aliases, key_match(symbol), i as int);
                }
                let entry: &AliasEntry = &self.aliases[i];
                return Some(&entry.alias);
            }
            i = i + 1;
        }
        proof {
            assert(!has_any(self@.aliases, key_match(symbol)));
        }
        None
    }

    /// Whether an alias is registered under `name`.
    pub fn contains_alias(&mut self, name: Symbol) -> (r: bool)
        requires
            old(self).wf(),
        ensures
            final(self).wf(),
            final(self)@ == old(self)@,
            r == (alias_resolution(old(self)@.aliases, name) is Some),
    {
        self.lookup_alias(name).is_some()
    }

    /// Registers the alias built from the declaration's pieces under
    /// `name`, overwriting any alias already stored under that key. Every
    /// type variable free in the body must be bound by `vars`: an alias
    /// breaking that is an internal inconsistency upstream, not a user
    /// error, and is refused outright.
    pub fn add_alias(
        &mut self,
        name: Symbol,
        region: Region,
        vars: Vec<Loc<AliasVar>>,
        typ: TypeBody,
        kind: AliasKind,
    )
        requires
            old(self).wf(),
            body_vars_bound(loc_vars_view(vars@), typ@),
        ensures
            final(self).wf(),
            final(self)@ == alias_insert_effect(
                old(self)@,
                name,
                make_alias_view(region, loc_vars_view(vars@), typ@, kind),
            ),
    {
        let alias = create_alias(name, region, vars, typ, kind);
        let n: usize = self.aliases.len();
        let mut i: usize = 0;
        let mut found: Option<usize> = None;
        while i < n
            invariant
                self.wf(),
                self@ == old(self)@,
                n == self@.aliases.len(),
                i <= n,
                match found {
                    Some(k) => is_first_where(self@.aliases, key_match(name), k as int),
                    None => forall|j: int|
                        0 <= j < i ==> !key_match(name)(#[trigger] self@.aliases[j]),
                },
            decreases n - i,
        {
            if found.is_none() && self.aliases[i].key == name {
                found = Some(i);
            }
            i = i + 1;
        }
        match found {
            Some(k) => {
                proof {
                    lemma_first_unique(self@.aliases, key_match(name), k as int);
                }
                self.aliases[k] = AliasEntry { key: name, alias };
                proof {
                    let effect = alias_insert_effect(
                        old(self)@,
                        name,
                        make_alias_view(region, loc_vars_view(vars@), typ@, kind),
                    );
                    assert(self@.aliases =~= effect.aliases);
                    assert(self@ == effect);
                    assert forall|a: int, b: int|
                        0 <= a < b < self@.aliases.len() implies (#[trigger] self@.aliases[a]).0
                        != (#[trigger] self@.aliases[b]).0 by {
                        assert(old(self)@.aliases[a].0 != old(self)@.aliases[b].0);
                        assert(old(self)@.aliases[k as int].0 == name);
                    }
                }
            },
            None => {
                proof {
                    assert(!has_any(self@.aliases, key_match(name)));
                }
                self.aliases.push(AliasEntry { key: name, alias });
                proof {
                    let effect = alias_insert_effect(
                        old(self)@,
                        name,
                        make_alias_view(region, loc_vars_view(vars@), typ@, kind),
                    );
                    assert(self@.aliases =~= effect.aliases);
                    assert(self@ == effect);
                    assert forall|a: int, b: int|
                        0 <= a < b < self@.aliases.len() implies (#[trigger] self@.aliases[a]).0
                        != (#[trigger] self@.aliases[b]).0 by {
                        if b < self@.aliases.len() - 1 {
                            assert(old(self)@.aliases[a].0 != old(self)@.aliases[b].0);
                        } else {
                            assert(!key_match(name)(old(self)@.aliases[a]));
                        }
                    }
                }
            },
        }
    }

    /// The error for an opaque reference whose name does not resolve to a
    /// locally-declared opaque alias, carrying every locally-declared
    /// opaque name for suggestions and, where the name is a transparent
    /// alias, that alias's header region.
    fn opaque_not_defined_error(
        &self,
        opaque: &Ident,
        lookup_region: Region,
        opt_defined_alias: Option<Region>,
    ) -> (e: RuntimeError)
        requires
            self.wf(),
        ensures
            e matches RuntimeError::OpaqueNotDefined {
                usage,
                opaques_in_scope,
                opt_defined_alias: oda,
            } && usage.region == lookup_region && usage.value@ == opaque@ && text_seq(
                opaques_in_scope@,
            ) == opaque_names(self@) && oda == opt_defined_alias,
    {
        let n: usize = self.locals.len();
        let mut opaques: Vec<Ident> = Vec::new();
        let mut i: usize = 0;
        while i < n
            invariant
                self.wf(),
                n == self@.entries.len(),
                i <= n,
                text_seq(opaques@) == opaque_names_upto(self@, i as int),
            decreases n - i,
        {
            let text = self.locals.text_at(i);
            let mut is_opaque = false;
            if !text.is_empty() {
                match self.lookup_alias(Symbol::new(self.home, i as u32)) {
                    Some(alias) => {
                        if alias.kind == AliasKind::Opaque {
                            is_opaque = true;
                        }
                    },
                    None => {},
                }
            }
            proof {
                assert(is_opaque == crate::model::is_locally_opaque(self@, i as int));
            }
            if is_opaque {
                opaques.push(self.locals.text_at(i).clone());
            }
            proof {
                assert(text_seq(opaques@) =~= opaque_names_upto(self@, i as int + 1));
            }
            i = i + 1;
        }
        RuntimeError::OpaqueNotDefined {
            usage: Loc::at(lookup_region, opaque.clone()),
            opaques_in_scope: opaques,
            opt_defined_alias,
        }
    }

    /// Resolves an opaque-type reference (the name as written after the
    /// sigil). It must name a *local* declaration whose alias is of opaque
    /// kind: a name that only resolves through an import is rejected as an
    /// opaque used outside its declaring scope, distinctly from an
    /// undefined one; a local name with no alias, or with a transparent
    /// one, is undefined as an opaque.
    pub fn lookup_opaque_ref(&self, opaque: &Ident, lookup_region: Region) -> (r: Result<
        (Symbol, &Alias),
        RuntimeError,
    >)
        requires
            self.wf(),
        ensures
            match local_resolution(self@.home, self@.entries, opaque@) {
                Some(found) => match alias_resolution(self@.aliases, found.0) {
                    Some(av) => {
                        if av.kind == AliasKind::Opaque {
                            r matches Ok(p) && p.0 == found.0 && p.1@ == av
                        } else {
                            r matches Err(e) && (e matches RuntimeError::OpaqueNotDefined {
                                usage,
                                opaques_in_scope,
                                opt_defined_alias,
                            } && usage.region == lookup_region && usage.value@ == opaque@
                                && text_seq(opaques_in_scope@) == opaque_names(self@)
                                && opt_defined_alias == Some(av.header_region_spec()))
                        }
                    },
                    None => r matches Err(e) && (e matches RuntimeError::OpaqueNotDefined {
                        usage,
                        opaques_in_scope,
                        opt_defined_alias,
                    } && usage.region == lookup_region && usage.value@ == opaque@ && text_seq(
                        opaques_in_scope@,
                    ) == opaque_names(self@) && opt_defined_alias is None),
                },
                None => match import_resolution(self@.imports, opaque@) {
                    Some(found) => r matches Err(e) && (e
                        matches RuntimeError::OpaqueOutsideScope {
                        opaque: o,
                        referenced_region,
                        imported_region,
                    } && o@ == opaque@ && referenced_region == lookup_region && imported_region
                        == found.1),
                    None => r matches Err(e) && (e matches RuntimeError::OpaqueNotDefined {
                        usage,
                        opaques_in_scope,
                        opt_defined_alias,
                    } && usage.region == lookup_region && usage.value@ == opaque@ && text_seq(
                        opaques_in_scope@,
                    ) == opaque_names(self@) && opt_defined_alias is None),
                },
            },
    {
        match self.locals.has_in_scope(opaque) {
            Some((symbol, _)) => {
                match self.lookup_alias(symbol) {
                    None => Err(self.opaque_not_defined_error(opaque, lookup_region, None)),
                    Some(alias) => {
                        match alias.kind {
                            // A transparent alias, not an opaque type.
                            AliasKind::Transparent => {
                                let header = alias.header_region();
                                Err(
                                    self.opaque_not_defined_error(
                                        opaque,
                                        lookup_region,
                                        Some(header),
                                    ),
                                )
                            },
                            AliasKind::Opaque => Ok((symbol, alias)),
                        }
                    },
                }
            },
            None => {
                let n: usize = self.imports.len();
                let mut i: usize = 0;
                while i < n
                    invariant
                        self.wf(),
                        local_resolution(self@.home, self@.entries, opaque@) is None,
                        n == self@.imports.len(),
                        i <= n,
                        forall|j: int|
                            0 <= j < i ==> !import_match(opaque@)(#[trigger] self@.imports[j]),
                    decreases n - i,
                {
                    if self.imports[i].name.text_eq(opaque) {
                        proof {
                            lemma_first_unique(self@.imports, import_match(opaque@), i as int);
                        }
                        // An opaque type declared in another module: opaque
                        // types may only be wrapped or unwrapped in the
                        // scope that declares them.
                        return Err(
                            RuntimeError::OpaqueOutsideScope {
                                opaque: opaque.clone(),
                                referenced_region: lookup_region,
                                imported_region: self.imports[i].region,
                            },
                        );
                    }
                    i = i + 1;
                }
                proof {
                    assert(!has_any(self@.imports, import_match(opaque@)));
                }
                Err(self.opaque_not_defined_error(opaque, lookup_region, None))
            },
        }
    }

    /// Begins a nested lexical scope: captures where the alias registry and
    /// the identifier table currently end. Hand the marker back to
    /// [`Self::exit_inner_scope`] on every exit path of the nested walk.
    pub fn inner_scope(&self) -> (m: InnerScopeMarker)
        requires
            self.wf(),
        ensures
            m.aliases_len == self@.aliases.len(),
            m.locals_marker == self@.entries.len(),
    {
        InnerScopeMarker {
            aliases_len: self.aliases.len(),
            locals_marker: self.locals.snapshot(),
        }
    }

    /// Ends the nested scope the marker began. Aliases added since are
    /// discarded; identifiers allocated since become permanently invisible
    /// to lookup, while the symbols already handed out from inside the
    /// nested scope stay valid. Imports and abilities are untouched: both
    /// are module-header business by the caller's convention.
    pub fn exit_inner_scope(&mut self, marker: InnerScopeMarker)
        requires
            old(self).wf(),
            marker.aliases_len <= old(self)@.aliases.len(),
        ensures
            final(self).wf(),
            final(self)@ == rollback_effect(
                old(self)@,
                marker.locals_marker as int,
                marker.aliases_len as int,
            ),
    {
        self.aliases.truncate(marker.aliases_len);
        self.locals.revert(marker.locals_marker);
        proof {
            let effect = rollback_effect(
                old(self)@,
                marker.locals_marker as int,
                marker.aliases_len as int,
            );
            assert(self@.aliases =~= effect.aliases);
            assert(self@ == effect);
            assert forall|a: int, b: int|
                0 <= a < b < self@.aliases.len() implies (#[trigger] self@.aliases[a]).0 != (
            #[trigger] self@.aliases[b]).0 by {
                assert(old(self)@.aliases[a].0 != old(self)@.aliases[b].0);
            }
        }
    }

    /// Records this module's identifier names (including the invisible
    /// ones) in the debug-name registry, once, at the end of the module's
    /// canonicalization.
    pub fn register_debug_idents(&self, registry: &mut crate::debug_names::DebugNameRegistry)
        requires
            self.wf(),
        ensures
            final(registry)@ == old(registry)@.push((self@.home, all_texts(self@.entries))),
    {
        let n: usize = self.locals.len();
        let mut names: Vec<Ident> = Vec::new();
        let mut i: usize = 0;
        while i < n
            invariant
                self.wf(),
                n == self@.entries.len(),
                i <= n,
                names@.len() == i,
                forall|j: int| 0 <= j < i ==> (#[trigger] names@[j])@ == self@.entries[j].text,
            decreases n - i,
        {
            names.push(self.locals.text_at(i).clone());
            i = i + 1;
        }
        proof {
            assert(text_seq(names@) =~= all_texts(self@.entries));
        }
        registry.register(self.home, names);
    }
}

/// Marks where a nested scope began: the alias-registry and identifier-table
/// lengths at entry.
#[derive(Clone, Copy, PartialEq, Eq, Structural, Debug)]
pub struct InnerScopeMarker {
    pub aliases_len: usize,
    pub locals_marker: usize,
}

} // verus!
