use vstd::prelude::*;

verus! {

use crate::alias::AliasKind;
use crate::alias::AliasView;
use crate::model::EntryView;
use crate::model::ScopeView;
use crate::model::alias_insert_effect;
use crate::model::at_most_one_visible;
use crate::model::alias_resolution;
use crate::model::commit_effect;
use crate::model::commit_symbol;
use crate::model::commit_target;
use crate::model::first_where;
use crate::model::fresh_symbol;
use crate::model::has_any;
use crate::model::import_effect;
use crate::model::import_match;
use crate::model::import_resolution;
use crate::model::is_first_where;
use crate::model::issued;
use crate::model::key_match;
use crate::model::lemma_first_unique;
use crate::model::lemma_has_any_first;
use crate::model::local_resolution;
use crate::model::resolution;
use crate::model::revert_entries;
use crate::model::rollback_effect;
use crate::model::scopeless_effect;
use crate::model::specialize_effect;
use crate::model::text_match;
use crate::model::unique_keys;
use crate::model::visible_match;
use crate::model::wf;
use crate::region::Region;
use crate::symbol::Symbol;

/// Uniqueness of minted symbols. Every symbol-minting operation returns a
/// symbol outside the scope's issued set and grows that set by exactly it,
/// and no operation shrinks the set (rollback included, see
/// [`lemma_rollback_issued`]). So along any sequence of scope states whose
/// issued sets grow step by step — `sets[k]` the issued set when the `k`-th
/// symbol was minted — the minted symbols are pairwise distinct.
pub proof fn lemma_minted_symbols_distinct(minted: Seq<Symbol>, sets: Seq<Set<Symbol>>)
    requires
        sets.len() == minted.len() + 1,
        forall|k: int| 0 <= k < minted.len() ==> !(#[trigger] sets[k]).contains(minted[k]),
        forall|k: int|
            0 <= k < minted.len() ==> (#[trigger] sets[k]).insert(minted[k]).subset_of(sets[k + 1]),
        forall|k: int| 0 <= k < minted.len() ==> (#[trigger] sets[k]).subset_of(sets[k + 1]),
    ensures
        forall|i: int, j: int| 0 <= i < j < minted.len() ==> minted[i] != minted[j],
{
    assert forall|i: int, j: int| 0 <= i < j < minted.len() implies minted[i] != minted[j] by {
        lemma_issued_grows(minted, sets, i, j);
        assert(sets[j].contains(minted[i]));
    }
}

proof fn lemma_issued_grows(minted: Seq<Symbol>, sets: Seq<Set<Symbol>>, i: int, k: int)
    requires
        sets.len() == minted.len() + 1,
        forall|m: int|
            0 <= m < minted.len() ==> (#[trigger] sets[m]).insert(minted[m]).subset_of(sets[m + 1]),
        forall|m: int| 0 <= m < minted.len() ==> (#[trigger] sets[m]).subset_of(sets[m + 1]),
        0 <= i < k <= minted.len(),
    ensures
        sets[k].contains(minted[i]),
    decreases k,
{
    if k == i + 1 {
        assert(sets[i].insert(minted[i]).contains(minted[i]));
    } else {
        lemma_issued_grows(minted, sets, i, k - 1);
        assert(sets[k - 1].subset_of(sets[k]));
    }
}

/// A fresh symbol differs from every symbol the scope has already issued,
/// and from every symbol of another module — in particular from a shadowed
/// original and from any imported symbol.
pub proof fn lemma_fresh_symbol_distinct(s: ScopeView, prior: Symbol)
    requires
        wf(s),
        issued(s).contains(prior) || prior.module_id != s.home,
    ensures
        fresh_symbol(s) != prior,
{
}

/// Rolling a nested scope back never shrinks the issued set: the entries it
/// hides all lie at or past the marker, and the marker never reaches into
/// the exposed prefix, the only place where visibility decides issuance.
pub proof fn lemma_rollback_issued(s: ScopeView, entries_marker: int, aliases_marker: int)
    requires
        wf(s),
        s.exposed_count <= entries_marker,
    ensures
        issued(rollback_effect(s, entries_marker, aliases_marker)) == issued(s),
{
    assert(issued(rollback_effect(s, entries_marker, aliases_marker)) =~= issued(s));
}

/// Importing changes no issued symbol.
pub proof fn lemma_import_issued(s: ScopeView, name: Seq<char>, symbol: Symbol, region: Region)
    ensures
        issued(import_effect(s, name, symbol, region)) == issued(s),
{
    assert(issued(import_effect(s, name, symbol, region)) =~= issued(s));
}

/// Storing an alias changes no issued symbol.
pub proof fn lemma_alias_insert_issued(s: ScopeView, key: Symbol, alias: AliasView)
    ensures
        issued(alias_insert_effect(s, key, alias)) == issued(s),
{
    assert(issued(alias_insert_effect(s, key, alias)) =~= issued(s));
}

/// Committing the introduction of a name nothing currently resolves keeps
/// at most one binding visible per text: the entry it activates is the
/// only visible one under its text.
pub proof fn lemma_commit_keeps_unique_visibility(s: ScopeView, name: Seq<char>, region: Region)
    requires
        wf(s),
        at_most_one_visible(s.entries),
        local_resolution(s.home, s.entries, name) is None,
    ensures
        at_most_one_visible(commit_effect(s, name, region).entries),
{
    let s2 = commit_effect(s, name, region);
    assert(!has_any(s.entries, visible_match(name)));
    match commit_target(s, name) {
        Some(t) => {
            lemma_has_any_first(s.entries, text_match(name));
            assert(s.entries[t].text == name);
            assert forall|i: int, j: int|
                0 <= i < j < s2.entries.len() && (#[trigger] s2.entries[i]).visible && (
            #[trigger] s2.entries[j]).visible implies s2.entries[i].text != s2.entries[j].text by {
                if i != t && j != t {
                    assert(s2.entries[i] == s.entries[i]);
                    assert(s2.entries[j] == s.entries[j]);
                } else {
                    let k = if i == t {
                        j
                    } else {
                        i
                    };
                    assert(s2.entries[k] == s.entries[k]);
                    if s.entries[k].text == name {
                        assert(visible_match(name)(s.entries[k]));
                        assert(has_any(s.entries, visible_match(name)));
                    }
                }
            }
        },
        None => {
            let n = s.entries.len() as int;
            assert forall|i: int, j: int|
                0 <= i < j < s2.entries.len() && (#[trigger] s2.entries[i]).visible && (
            #[trigger] s2.entries[j]).visible implies s2.entries[i].text != s2.entries[j].text by {
                if j < n {
                    assert(s2.entries[i] == s.entries[i]);
                    assert(s2.entries[j] == s.entries[j]);
                } else {
                    assert(s2.entries[i] == s.entries[i]);
                    if s.entries[i].text == name {
                        assert(visible_match(name)(s.entries[i]));
                        assert(has_any(s.entries, visible_match(name)));
                    }
                }
            }
        },
    }
}

/// Appending an invisible entry — a scopeless or unique allocation — keeps
/// at most one binding visible per text.
pub proof fn lemma_invisible_append_keeps_unique_visibility(
    entries: Seq<EntryView>,
    e: EntryView,
)
    requires
        at_most_one_visible(entries),
        !e.visible,
    ensures
        at_most_one_visible(entries.push(e)),
{
    let long = entries.push(e);
    assert forall|i: int, j: int|
        0 <= i < j < long.len() && (#[trigger] long[i]).visible && (#[trigger] long[j]).visible implies long[i].text
        != long[j].text by {
        assert(long[i] == entries[i]);
        assert(long[j] == entries[j]);
    }
}

/// Rolling back only hides entries, so it too keeps at most one binding
/// visible per text.
pub proof fn lemma_revert_keeps_unique_visibility(entries: Seq<EntryView>, marker: int)
    requires
        at_most_one_visible(entries),
    ensures
        at_most_one_visible(revert_entries(entries, marker)),
{
    let reverted = revert_entries(entries, marker);
    assert forall|i: int, j: int|
        0 <= i < j < reverted.len() && (#[trigger] reverted[i]).visible && (
    #[trigger] reverted[j]).visible implies reverted[i].text != reverted[j].text by {
        assert(reverted[i] == entries[i]);
        assert(reverted[j] == entries[j]);
    }
}

/// Immediate visibility: committing the introduction of a name nothing
/// currently resolves makes the name resolve to exactly the returned
/// symbol, at the new declaration's region.
pub proof fn lemma_introduce_then_lookup(s: ScopeView, name: Seq<char>, region: Region)
    requires
        wf(s),
        resolution(s, name) is None,
    ensures
        resolution(commit_effect(s, name, region), name) == Some((commit_symbol(s, name), region)),
{
    let s2 = commit_effect(s, name, region);
    assert(!has_any(s.entries, visible_match(name)));
    match commit_target(s, name) {
        Some(i) => {
            lemma_has_any_first(s.entries, text_match(name));
            assert(s.entries[i].text == name);
            assert(is_first_where(s2.entries, visible_match(name), i)) by {
                assert forall|j: int| 0 <= j < i implies !visible_match(name)(
                    #[trigger] s2.entries[j],
                ) by {
                    assert(s2.entries[j] == s.entries[j]);
                    assert(!(s.entries[j].visible && s.entries[j].text == name));
                }
            }
            lemma_first_unique(s2.entries, visible_match(name), i);
        },
        None => {
            let n = s.entries.len() as int;
            assert(is_first_where(s2.entries, visible_match(name), n)) by {
                assert forall|j: int| 0 <= j < n implies !visible_match(name)(
                    #[trigger] s2.entries[j],
                ) by {
                    assert(s2.entries[j] == s.entries[j]);
                    assert(!(s.entries[j].visible && s.entries[j].text == name));
                }
            }
            lemma_first_unique(s2.entries, visible_match(name), n);
        },
    }
}

/// Appending entries that are all invisible leaves every local resolution
/// as it was.
pub proof fn lemma_invisible_tail_resolution(
    home: u32,
    short: Seq<EntryView>,
    long: Seq<EntryView>,
    q: Seq<char>,
)
    requires
        long.len() >= short.len(),
        forall|j: int| 0 <= j < short.len() ==> long[j] == short[j],
        forall|j: int| short.len() <= j < long.len() ==> !(#[trigger] long[j]).visible,
    ensures
        local_resolution(home, long, q) == local_resolution(home, short, q),
{
    if has_any(short, visible_match(q)) {
        lemma_has_any_first(short, visible_match(q));
        let i = first_where(short, visible_match(q));
        assert(is_first_where(long, visible_match(q), i)) by {
            assert(long[i] == short[i]);
            assert forall|j: int| 0 <= j < i implies !visible_match(q)(#[trigger] long[j]) by {
                assert(long[j] == short[j]);
            }
        }
        lemma_first_unique(long, visible_match(q), i);
    } else {
        assert(!has_any(long, visible_match(q))) by {
            assert forall|j: int| 0 <= j < long.len() implies !visible_match(q)(
                #[trigger] long[j],
            ) by {
                if j < short.len() {
                    assert(long[j] == short[j]);
                    assert(!visible_match(q)(short[j]));
                }
            }
        }
    }
}

/// Shadow recovery preserves resolution: the scopeless allocation made for
/// a shadowing declaration (or for any other purpose) changes no name's
/// resolution — after a failed `introduce`, the original binding still
/// wins, under its original region.
pub proof fn lemma_scopeless_preserves_resolution(
    s: ScopeView,
    name: Seq<char>,
    region: Region,
    q: Seq<char>,
)
    requires
        wf(s),
    ensures
        resolution(scopeless_effect(s, name, region), q) == resolution(s, q),
{
    let s2 = scopeless_effect(s, name, region);
    lemma_invisible_tail_resolution(s.home, s.entries, s2.entries, q);
}

/// Minting a nameless unique symbol preserves resolution as well.
pub proof fn lemma_unique_preserves_resolution(s: ScopeView, q: Seq<char>)
    requires
        wf(s),
    ensures
        resolution(crate::model::unique_effect(s), q) == resolution(s, q),
{
    let s2 = crate::model::unique_effect(s);
    lemma_invisible_tail_resolution(s.home, s.entries, s2.entries, q);
}

/// Scope locality, and independence of sibling nested scopes: leaving a
/// nested scope restores every name's resolution to what it was at entry,
/// provided the nested walk only appended entries (it never re-activated a
/// pre-seeded exposed name) and imported nothing. A name introduced inside
/// the nested scope — or inside a sibling entered afterwards — therefore
/// resolves, or fails to, outside it exactly as before entry.
pub proof fn lemma_rollback_restores_resolution(
    s0: ScopeView,
    s1: ScopeView,
    aliases_marker: int,
    q: Seq<char>,
)
    requires
        wf(s0),
        wf(s1),
        s1.entries.len() >= s0.entries.len(),
        s1.entries.take(s0.entries.len() as int) == s0.entries,
        s1.imports == s0.imports,
        s1.home == s0.home,
    ensures
        resolution(rollback_effect(s1, s0.entries.len() as int, aliases_marker), q) == resolution(
            s0,
            q,
        ),
{
    let m = s0.entries.len() as int;
    let s2 = rollback_effect(s1, m, aliases_marker);
    assert forall|j: int| 0 <= j < m implies s2.entries[j] == s0.entries[j] by {
        assert(s1.entries.take(m)[j] == s1.entries[j]);
    }
    assert forall|j: int| m <= j < s2.entries.len() implies !(#[trigger] s2.entries[j]).visible by {
        assert(s2.entries[j] == revert_entries(s1.entries, m)[j]);
    }
    lemma_invisible_tail_resolution(s0.home, s0.entries, s2.entries, q);
}

/// Import visibility: importing a name nothing currently resolves makes
/// the name resolve to exactly the imported symbol, at the import's
/// declaring region; and that import is from then on what a second import
/// of the same name reports as the earlier one.
pub proof fn lemma_import_then_lookup(s: ScopeView, name: Seq<char>, symbol: Symbol, region: Region)
    requires
        wf(s),
        resolution(s, name) is None,
    ensures
        resolution(import_effect(s, name, symbol, region), name) == Some((symbol, region)),
        import_resolution(import_effect(s, name, symbol, region).imports, name) == Some(
            (symbol, region),
        ),
{
    let s2 = import_effect(s, name, symbol, region);
    let n = s.imports.len() as int;
    assert(!has_any(s.imports, import_match(name)));
    assert(is_first_where(s2.imports, import_match(name), n)) by {
        assert forall|j: int| 0 <= j < n implies !import_match(name)(#[trigger] s2.imports[j]) by {
            assert(s2.imports[j] == s.imports[j]);
            assert(!import_match(name)(s.imports[j]));
        }
    }
    lemma_first_unique(s2.imports, import_match(name), n);
}

/// Import shadow: while a name resolves through an import (and not
/// locally), a local introduction of it is refused — and the recovery
/// allocation the refusal mints leaves the import's resolution untouched.
pub proof fn lemma_import_shadow(s: ScopeView, name: Seq<char>, region: Region)
    requires
        wf(s),
        local_resolution(s.home, s.entries, name) is None,
        import_resolution(s.imports, name) is Some,
    ensures
        resolution(s, name) == import_resolution(s.imports, name),
        resolution(scopeless_effect(s, name, region), name) == import_resolution(s.imports, name),
{
    lemma_scopeless_preserves_resolution(s, name, region, name);
}

/// What the alias registry answers after an alias is stored: the stored
/// alias under its key, and under every other key exactly what it answered
/// before. With an opaque-kind alias stored under a locally-resolvable
/// name's symbol, an opaque reference to that name therefore succeeds,
/// while the same name reached only through an import stays rejected as
/// outside its declaring scope (see `Scope::lookup_opaque_ref`).
pub proof fn lemma_alias_insert_resolution(
    s: ScopeView,
    key: Symbol,
    alias: AliasView,
    other: Symbol,
)
    requires
        wf(s),
    ensures
        alias_resolution(alias_insert_effect(s, key, alias).aliases, key) == Some(alias),
        other != key ==> alias_resolution(alias_insert_effect(s, key, alias).aliases, other)
            == alias_resolution(s.aliases, other),
        wf(alias_insert_effect(s, key, alias)),
{
    let s2 = alias_insert_effect(s, key, alias);
    if has_any(s.aliases, key_match(key)) {
        lemma_has_any_first(s.aliases, key_match(key));
        let f = first_where(s.aliases, key_match(key));
        assert(is_first_where(s2.aliases, key_match(key), f)) by {
            assert forall|j: int| 0 <= j < f implies !key_match(key)(#[trigger] s2.aliases[j]) by {
                assert(s2.aliases[j] == s.aliases[j]);
            }
        }
        lemma_first_unique(s2.aliases, key_match(key), f);
        assert(unique_keys(s2.aliases)) by {
            assert forall|a: int, b: int|
                0 <= a < b < s2.aliases.len() implies (#[trigger] s2.aliases[a]).0 != (
            #[trigger] s2.aliases[b]).0 by {
                assert(s.aliases[a].0 != s.aliases[b].0);
                assert(s.aliases[f].0 == key);
            }
        }
        if other != key {
            lemma_alias_other_key(s.aliases, s2.aliases, f, key, other);
        }
    } else {
        let n = s.aliases.len() as int;
        assert(is_first_where(s2.aliases, key_match(key), n)) by {
            assert forall|j: int| 0 <= j < n implies !key_match(key)(#[trigger] s2.aliases[j]) by {
                assert(s2.aliases[j] == s.aliases[j]);
                assert(!key_match(key)(s.aliases[j]));
            }
        }
        lemma_first_unique(s2.aliases, key_match(key), n);
        assert(unique_keys(s2.aliases)) by {
            assert forall|a: int, b: int|
                0 <= a < b < s2.aliases.len() implies (#[trigger] s2.aliases[a]).0 != (
            #[trigger] s2.aliases[b]).0 by {
                if b < n {
                    assert(s.aliases[a].0 != s.aliases[b].0);
                } else {
                    assert(!key_match(key)(s.aliases[a]));
                }
            }
        }
        if other != key {
            lemma_alias_other_key_push(s.aliases, s2.aliases, key, other);
        }
    }
}

proof fn lemma_alias_other_key(
    aliases: Seq<(Symbol, AliasView)>,
    updated: Seq<(Symbol, AliasView)>,
    f: int,
    key: Symbol,
    other: Symbol,
)
    requires
        0 <= f < aliases.len(),
        updated.len() == aliases.len(),
        updated[f].0 == key,
        other != key,
        forall|j: int| 0 <= j < aliases.len() && j != f ==> #[trigger] updated[j] == aliases[j],
        aliases[f].0 == key,
    ensures
        alias_resolution(updated, other) == alias_resolution(aliases, other),
{
    if has_any(aliases, key_match(other)) {
        lemma_has_any_first(aliases, key_match(other));
        let i = first_where(aliases, key_match(other));
        assert(i != f);
        assert(is_first_where(updated, key_match(other), i)) by {
            assert forall|j: int| 0 <= j < i implies !key_match(other)(#[trigger] updated[j]) by {
                if j == f {
                    assert(updated[f].0 == key);
                } else {
                    assert(updated[j] == aliases[j]);
                }
            }
        }
        lemma_first_unique(updated, key_match(other), i);
    } else {
        assert(!has_any(updated, key_match(other))) by {
            assert forall|j: int| 0 <= j < updated.len() implies !key_match(other)(
                #[trigger] updated[j],
            ) by {
                if j == f {
                    assert(updated[f].0 == key);
                } else {
                    assert(updated[j] == aliases[j]);
                    assert(!key_match(other)(aliases[j]));
                }
            }
        }
    }
}

proof fn lemma_alias_other_key_push(
    aliases: Seq<(Symbol, AliasView)>,
    pushed: Seq<(Symbol, AliasView)>,
    key: Symbol,
    other: Symbol,
)
    requires
        pushed.len() == aliases.len() + 1,
        pushed[aliases.len() as int].0 == key,
        other != key,
        forall|j: int| 0 <= j < aliases.len() ==> #[trigger] pushed[j] == aliases[j],
    ensures
        alias_resolution(pushed, other) == alias_resolution(aliases, other),
{
    let n = aliases.len() as int;
    if has_any(aliases, key_match(other)) {
        lemma_has_any_first(aliases, key_match(other));
        let i = first_where(aliases, key_match(other));
        assert(is_first_where(pushed, key_match(other), i)) by {
            assert forall|j: int| 0 <= j < i implies !key_match(other)(#[trigger] pushed[j]) by {
                assert(pushed[j] == aliases[j]);
            }
        }
        lemma_first_unique(pushed, key_match(other), i);
    } else {
        assert(!has_any(pushed, key_match(other))) by {
            assert forall|j: int| 0 <= j < pushed.len() implies !key_match(other)(
                #[trigger] pushed[j],
            ) by {
                if j < n {
                    assert(pushed[j] == aliases[j]);
                    assert(!key_match(other)(aliases[j]));
                }
            }
        }
    }
}

/// Ability specialization is not shadowing: the successful collision path
/// of `Scope::introduce_or_shadow_ability_member` mints the fresh symbol,
/// records exactly the link from it to the ability member, changes no
/// membership, and leaves every name's resolution untouched — the member's
/// binding still wins every lookup.
pub proof fn lemma_specialization_recorded(
    s: ScopeView,
    name: Seq<char>,
    region: Region,
    member: Symbol,
    q: Seq<char>,
)
    requires
        wf(s),
    ensures
        ({
            let s2 = specialize_effect(scopeless_effect(s, name, region), fresh_symbol(s), member);
            &&& s2.abilities.specializations == s.abilities.specializations.push(
                (fresh_symbol(s), member),
            )
            &&& s2.abilities.members == s.abilities.members
            &&& resolution(s2, q) == resolution(s, q)
        }),
{
    let s2 = specialize_effect(scopeless_effect(s, name, region), fresh_symbol(s), member);
    lemma_scopeless_preserves_resolution(s, name, region, q);
    assert(resolution(s2, q) == resolution(scopeless_effect(s, name, region), q));
}

} // verus!
