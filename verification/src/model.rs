use vstd::prelude::*;

verus! {

use crate::alias::AliasKind;
use crate::alias::AliasView;
use crate::ident::MAX_IDENT_ENTRIES;
use crate::region::Region;
use crate::symbol::Symbol;

/// One identifier-table entry as the contracts see it: its text, whether the
/// name is currently resolvable, and the source region last recorded for it.
pub struct EntryView {
    pub text: Seq<char>,
    pub visible: bool,
    pub region: Region,
}

/// One import entry: the name it is known by here, the foreign symbol it
/// stands for, and the region of its declaration.
pub struct ImportView {
    pub name: Seq<char>,
    pub symbol: Symbol,
    pub region: Region,
}

/// The whole scope as the contracts see it.
pub struct ScopeView {
    /// The module being resolved; unqualified names become symbols of it.
    pub home: u32,
    /// The first `exposed_count` entries are the module's exposed names,
    /// pre-seeded so their identifier indices stay stable for other modules.
    pub exposed_count: int,
    /// The identifier table with visibility flags and regions, in
    /// allocation order; it only ever grows.
    pub entries: Seq<EntryView>,
    /// Module-wide imports, never rolled back.
    pub imports: Seq<ImportView>,
    /// The alias registry: insertion-ordered, keyed by symbol.
    pub aliases: Seq<(Symbol, AliasView)>,
    /// The abilities collaborator's state.
    pub abilities: crate::abilities::AbilitiesView,
}

/// A first match in a sequence: position `i` satisfies `p` and nothing
/// before it does.
pub open spec fn is_first_where<A>(s: Seq<A>, p: spec_fn(A) -> bool, i: int) -> bool {
    &&& 0 <= i < s.len()
    &&& p(s[i])
    &&& forall|j: int| 0 <= j < i ==> !p(#[trigger] s[j])
}

pub open spec fn has_any<A>(s: Seq<A>, p: spec_fn(A) -> bool) -> bool {
    exists|i: int| 0 <= i < s.len() && p(#[trigger] s[i])
}

pub open spec fn first_where<A>(s: Seq<A>, p: spec_fn(A) -> bool) -> int {
    choose|i: int| is_first_where(s, p, i)
}

proof fn lemma_first_at_or_below<A>(s: Seq<A>, p: spec_fn(A) -> bool, w: int)
    requires
        0 <= w < s.len(),
        p(s[w]),
    ensures
        exists|i: int| is_first_where(s, p, i),
    decreases w,
{
    if forall|j: int| 0 <= j < w ==> !p(#[trigger] s[j]) {
        assert(is_first_where(s, p, w));
    } else {
        let j = choose|j: int| 0 <= j < w && p(#[trigger] s[j]);
        lemma_first_at_or_below(s, p, j);
    }
}

/// Where some position matches, a unique first match exists, and
/// `first_where` names it.
pub proof fn lemma_has_any_first<A>(s: Seq<A>, p: spec_fn(A) -> bool)
    requires
        has_any(s, p),
    ensures
        is_first_where(s, p, first_where(s, p)),
{
    let w = choose|i: int| 0 <= i < s.len() && p(#[trigger] s[i]);
    lemma_first_at_or_below(s, p, w);
}

/// A position shown to be a first match is the one `first_where` names.
pub proof fn lemma_first_unique<A>(s: Seq<A>, p: spec_fn(A) -> bool, i: int)
    requires
        is_first_where(s, p, i),
    ensures
        has_any(s, p),
        first_where(s, p) == i,
{
    assert(has_any(s, p));
    lemma_has_any_first(s, p);
    let f = first_where(s, p);
    if f < i {
        assert(!p(s[f]));
    } else if f > i {
        assert(!p(s[i]));
    }
}

/// The predicate a lookup uses on table entries: currently visible under
/// the looked-up text.
pub open spec fn visible_match(name: Seq<char>) -> spec_fn(EntryView) -> bool {
    |e: EntryView| e.visible && e.text == name
}

/// A table entry carrying the given text, visible or not.
pub open spec fn text_match(name: Seq<char>) -> spec_fn(EntryView) -> bool {
    |e: EntryView| e.text == name
}

/// An import entry under the given name.
pub open spec fn import_match(name: Seq<char>) -> spec_fn(ImportView) -> bool {
    |im: ImportView| im.name == name
}

/// An alias-registry entry under the given key.
pub open spec fn key_match(key: Symbol) -> spec_fn((Symbol, AliasView)) -> bool {
    |p: (Symbol, AliasView)| p.0 == key
}

/// What looking `name` up among the locals returns: the symbol and region of
/// the first visible entry carrying that text, if any.
pub open spec fn local_resolution(home: u32, entries: Seq<EntryView>, name: Seq<char>) -> Option<
    (Symbol, Region),
> {
    if has_any(entries, visible_match(name)) {
        let i = first_where(entries, visible_match(name));
        Some((Symbol { module_id: home, ident_id: i as u32 }, entries[i].region))
    } else {
        None
    }
}

/// What looking `name` up among the imports returns: the first import under
/// that name, if any.
pub open spec fn import_resolution(imports: Seq<ImportView>, name: Seq<char>) -> Option<
    (Symbol, Region),
> {
    if has_any(imports, import_match(name)) {
        let i = first_where(imports, import_match(name));
        Some((imports[i].symbol, imports[i].region))
    } else {
        None
    }
}

/// Full resolution: locals first, then imports.
pub open spec fn resolution(s: ScopeView, name: Seq<char>) -> Option<(Symbol, Region)> {
    match local_resolution(s.home, s.entries, name) {
        Some(r) => Some(r),
        None => import_resolution(s.imports, name),
    }
}

/// The texts of the currently visible table entries, in allocation order.
pub open spec fn visible_texts(entries: Seq<EntryView>) -> Seq<Seq<char>>
    decreases entries.len(),
{
    if entries.len() == 0 {
        Seq::empty()
    } else {
        let prefix = visible_texts(entries.drop_last());
        if entries.last().visible {
            prefix.push(entries.last().text)
        } else {
            prefix
        }
    }
}

/// Every name currently resolvable, imports first, then visible locals; the
/// suggestion list a failed lookup carries.
pub open spec fn names_in_scope(s: ScopeView) -> Seq<Seq<char>> {
    Seq::new(s.imports.len(), |i: int| s.imports[i].name) + visible_texts(s.entries)
}

/// The alias stored under `key`, if any; keys are unique, so the first
/// match is the only one.
pub open spec fn alias_resolution(aliases: Seq<(Symbol, AliasView)>, key: Symbol) -> Option<
    AliasView,
> {
    if has_any(aliases, key_match(key)) {
        Some(aliases[first_where(aliases, key_match(key))].1)
    } else {
        None
    }
}

pub open spec fn unique_keys(aliases: Seq<(Symbol, AliasView)>) -> bool {
    forall|i: int, j: int|
        0 <= i < j < aliases.len() ==> (#[trigger] aliases[i]).0 != (#[trigger] aliases[j]).0
}

/// Entry `i` names a locally-declared opaque alias: it has a real text and
/// the symbol made of it is registered with an opaque-kind alias.
pub open spec fn is_locally_opaque(s: ScopeView, i: int) -> bool {
    &&& s.entries[i].text.len() > 0
    &&& match alias_resolution(s.aliases, Symbol { module_id: s.home, ident_id: i as u32 }) {
        Some(a) => a.kind == AliasKind::Opaque,
        None => false,
    }
}

pub open spec fn opaque_names_upto(s: ScopeView, n: int) -> Seq<Seq<char>>
    decreases n,
{
    if n <= 0 {
        Seq::empty()
    } else {
        let prefix = opaque_names_upto(s, n - 1);
        if is_locally_opaque(s, n - 1) {
            prefix.push(s.entries[n - 1].text)
        } else {
            prefix
        }
    }
}

/// The texts of every locally-declared opaque alias, in allocation order;
/// the suggestion list an undefined-opaque error carries.
pub open spec fn opaque_names(s: ScopeView) -> Seq<Seq<char>> {
    opaque_names_upto(s, s.entries.len() as int)
}

/// At most one visible binding exists for any text: visibility, not table
/// membership, defines lookup results, and no two visible entries may
/// share a text. Everything starts invisible, and the laws show every
/// operation keeps this.
pub open spec fn at_most_one_visible(entries: Seq<EntryView>) -> bool {
    forall|i: int, j: int|
        0 <= i < j < entries.len() && (#[trigger] entries[i]).visible && (
        #[trigger] entries[j]).visible ==> entries[i].text != entries[j].text
}

/// The texts of all table entries, visible or not, in allocation order;
/// what the end-of-pass debug-name registration records.
pub open spec fn all_texts(entries: Seq<EntryView>) -> Seq<Seq<char>> {
    Seq::new(entries.len(), |i: int| entries[i].text)
}

/// Well-formedness of a scope: the exposed prefix fits, the table stays
/// under the machine bound, and alias keys are unique.
pub open spec fn wf(s: ScopeView) -> bool {
    &&& 0 <= s.exposed_count <= s.entries.len()
    &&& s.entries.len() <= MAX_IDENT_ENTRIES
    &&& unique_keys(s.aliases)
}

/// Every symbol this scope may ever have handed out: all symbols of the
/// home module whose index lies in the table, except exposed entries not
/// (yet) made visible — an exposed index is only handed out when its entry
/// is activated, and activation is never undone.
pub open spec fn issued(s: ScopeView) -> Set<Symbol> {
    Set::new(
        |sym: Symbol|
            {
                &&& sym.module_id == s.home
                &&& (sym.ident_id as int) < s.entries.len()
                &&& ((sym.ident_id as int) >= s.exposed_count || s.entries[sym.ident_id as int].visible)
            },
    )
}

/// The symbol a committed introduction of `name` returns: the pre-seeded
/// exposed entry's index where the first entry under that text is exposed,
/// else a fresh index.
pub open spec fn commit_target(s: ScopeView, name: Seq<char>) -> Option<int> {
    if has_any(s.entries, text_match(name)) {
        let i = first_where(s.entries, text_match(name));
        if i < s.exposed_count {
            Some(i)
        } else {
            None
        }
    } else {
        None
    }
}

pub open spec fn commit_symbol(s: ScopeView, name: Seq<char>) -> Symbol {
    match commit_target(s, name) {
        Some(i) => Symbol { module_id: s.home, ident_id: i as u32 },
        None => fresh_symbol(s),
    }
}

/// The symbol a fresh allocation returns: the home module with the next
/// table index.
pub open spec fn fresh_symbol(s: ScopeView) -> Symbol {
    Symbol { module_id: s.home, ident_id: s.entries.len() as u32 }
}

/// Committing an introduction: re-activate the pre-seeded exposed entry,
/// recording the new region, or append a fresh visible entry.
pub open spec fn commit_effect(s: ScopeView, name: Seq<char>, region: Region) -> ScopeView {
    match commit_target(s, name) {
        Some(i) => ScopeView {
            entries: s.entries.update(
                i,
                EntryView { text: s.entries[i].text, visible: true, region },
            ),
            ..s
        },
        None => ScopeView {
            entries: s.entries.push(EntryView { text: name, visible: true, region }),
            ..s
        },
    }
}

/// Allocating a symbol without making it nameable: append an invisible
/// entry.
pub open spec fn scopeless_effect(s: ScopeView, name: Seq<char>, region: Region) -> ScopeView {
    ScopeView { entries: s.entries.push(EntryView { text: name, visible: false, region }), ..s }
}

/// Minting a compiler-internal symbol: append an invisible entry with no
/// stable text.
pub open spec fn unique_effect(s: ScopeView) -> ScopeView {
    ScopeView {
        entries: s.entries.push(
            EntryView { text: Seq::empty(), visible: false, region: Region::zero_spec() },
        ),
        ..s
    }
}

/// Importing: append the module-wide import entry.
pub open spec fn import_effect(
    s: ScopeView,
    name: Seq<char>,
    symbol: Symbol,
    region: Region,
) -> ScopeView {
    ScopeView { imports: s.imports.push(ImportView { name, symbol, region }), ..s }
}

/// Storing an alias: overwrite the entry under the same key in place, else
/// append.
pub open spec fn alias_insert_effect(s: ScopeView, key: Symbol, alias: AliasView) -> ScopeView {
    if has_any(s.aliases, key_match(key)) {
        ScopeView {
            aliases: s.aliases.update(first_where(s.aliases, key_match(key)), (key, alias)),
            ..s
        }
    } else {
        ScopeView { aliases: s.aliases.push((key, alias)), ..s }
    }
}

/// Recording a specialization link in the abilities collaborator.
pub open spec fn specialize_effect(s: ScopeView, specializing: Symbol, member: Symbol) -> ScopeView {
    ScopeView {
        abilities: crate::abilities::AbilitiesView {
            members: s.abilities.members,
            specializations: s.abilities.specializations.push((specializing, member)),
        },
        ..s
    }
}

/// A committed introduction of a name nobody currently resolves hands out a
/// symbol the scope has never issued, and grows the issued set by exactly
/// that symbol.
pub proof fn lemma_commit_issued(s: ScopeView, name: Seq<char>, region: Region)
    requires
        wf(s),
        s.entries.len() < MAX_IDENT_ENTRIES,
        local_resolution(s.home, s.entries, name) is None,
    ensures
        !issued(s).contains(commit_symbol(s, name)),
        issued(commit_effect(s, name, region)) == issued(s).insert(commit_symbol(s, name)),
        wf(commit_effect(s, name, region)),
{
    let sym = commit_symbol(s, name);
    let s2 = commit_effect(s, name, region);
    match commit_target(s, name) {
        Some(i) => {
            lemma_has_any_first(s.entries, text_match(name));
            assert(s.entries[i].text == name);
            assert(!s.entries[i].visible) by {
                if s.entries[i].visible {
                    assert(visible_match(name)(s.entries[i]));
                    assert(has_any(s.entries, visible_match(name)));
                }
            }
            assert(sym.ident_id as int == i);
            assert(!issued(s).contains(sym));
            assert(issued(s2) =~= issued(s).insert(sym));
        },
        None => {
            assert(sym.ident_id as int == s.entries.len());
            assert(!issued(s).contains(sym));
            assert(issued(s2) =~= issued(s).insert(sym));
        },
    }
}

/// A scopeless allocation mints a symbol the scope has never issued, and
/// grows the issued set by exactly that symbol.
pub proof fn lemma_scopeless_issued(s: ScopeView, name: Seq<char>, region: Region)
    requires
        wf(s),
        s.entries.len() < MAX_IDENT_ENTRIES,
    ensures
        !issued(s).contains(fresh_symbol(s)),
        issued(scopeless_effect(s, name, region)) == issued(s).insert(fresh_symbol(s)),
        wf(scopeless_effect(s, name, region)),
{
    assert(issued(scopeless_effect(s, name, region)) =~= issued(s).insert(fresh_symbol(s)));
}

/// Minting a compiler-internal symbol issues a fresh one as well.
pub proof fn lemma_unique_issued(s: ScopeView)
    requires
        wf(s),
        s.entries.len() < MAX_IDENT_ENTRIES,
    ensures
        !issued(s).contains(fresh_symbol(s)),
        issued(unique_effect(s)) == issued(s).insert(fresh_symbol(s)),
        wf(unique_effect(s)),
{
    assert(issued(unique_effect(s)) =~= issued(s).insert(fresh_symbol(s)));
}

/// Entries after a rollback to `marker`: everything allocated at or past the
/// marker turns invisible; nothing is removed, texts and regions stay.
pub open spec fn revert_entries(entries: Seq<EntryView>, marker: int) -> Seq<EntryView> {
    Seq::new(
        entries.len(),
        |i: int|
            if i < marker {
                entries[i]
            } else {
                EntryView { text: entries[i].text, visible: false, region: entries[i].region }
            },
    )
}

/// Leaving a nested scope: revert visibility to the entry marker and cut the
/// alias registry back; imports and abilities stay.
pub open spec fn rollback_effect(s: ScopeView, entries_marker: int, aliases_marker: int) -> ScopeView {
    ScopeView {
        entries: revert_entries(s.entries, entries_marker),
        aliases: s.aliases.take(aliases_marker),
        ..s
    }
}

} // verus!
