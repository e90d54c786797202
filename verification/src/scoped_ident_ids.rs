use vstd::prelude::*;

verus! {

use crate::bits::VisibilityBits;
use crate::bits::bits_get;
use crate::bits::bits_len;
use crate::bits::bits_of;
use crate::bits::bits_push;
use crate::bits::bits_repeat;
use crate::bits::bits_set;
use crate::ident::Ident;
use crate::ident::IdentIds;
use crate::ident::MAX_IDENT_ENTRIES;
use crate::ident::text_seq;
use crate::model::EntryView;
use crate::model::is_first_where;
use crate::model::has_any;
use crate::model::first_where;
use crate::model::lemma_first_unique;
use crate::model::local_resolution;
use crate::model::revert_entries;
use crate::model::text_match;
use crate::model::visible_match;
use crate::model::visible_texts;
use crate::region::Region;
use crate::symbol::Symbol;

/// [`ScopedIdentIds`] as the contracts see it: the owning module and the
/// identifier-table entries with their visibility and regions.
pub struct ScopedIdentIdsView {
    pub home: u32,
    pub entries: Seq<EntryView>,
}

/// The identifier table wrapped with one visibility flag and one region per
/// entry. The three stores grow only together, and only through the methods
/// here, which keeps their indices in lock-step.
pub struct ScopedIdentIds {
    pub ident_ids: IdentIds,
    in_scope: VisibilityBits,
    regions: Vec<Region>,
    home: u32,
}

impl View for ScopedIdentIds {
    type V = ScopedIdentIdsView;

    closed spec fn view(&self) -> ScopedIdentIdsView {
        ScopedIdentIdsView {
            home: self.home,
            entries: Seq::new(
                self.ident_ids@.len(),
                |i: int|
                    EntryView {
                        text: self.ident_ids@[i],
                        visible: bits_of(self.in_scope)[i],
                        region: self.regions@[i],
                    },
            ),
        }
    }
}

impl ScopedIdentIds {
    /// Lock-step well-formedness: table, flags and regions share one
    /// length, which stays under the machine bound.
    pub closed spec fn wf(&self) -> bool {
        &&& bits_of(self.in_scope).len() == self.ident_ids@.len()
        &&& self.regions@.len() == self.ident_ids@.len()
        &&& self.ident_ids@.len() <= MAX_IDENT_ENTRIES
    }

    /// Starts from a pre-seeded identifier table (the module's exposed
    /// names): every seeded entry begins invisible, with an empty region.
    pub fn from_ident_ids(home: u32, ident_ids: IdentIds) -> (r: Self)
        requires
            ident_ids@.len() <= MAX_IDENT_ENTRIES,
        ensures
            r.wf(),
            r@.home == home,
            r@.entries == Seq::new(
                ident_ids@.len(),
                |i: int|
                    EntryView {
                        text: ident_ids@[i],
                        visible: false,
                        region: Region::zero_spec(),
                    },
            ),
    {
        let capacity: usize = ident_ids.len();
        let in_scope = bits_repeat(false, capacity);
        let mut regions: Vec<Region> = Vec::new();
        let mut i: usize = 0;
        while i < capacity
            invariant
                i <= capacity,
                regions@.len() == i,
                forall|j: int| 0 <= j < i ==> regions@[j] == Region::zero_spec(),
            decreases capacity - i,
        {
            regions.push(Region::zero());
            i = i + 1;
        }
        let r = ScopedIdentIds { ident_ids, in_scope, regions, home };
        proof {
            assert(r@.entries =~= Seq::new(
                r.ident_ids@.len(),
                |i: int|
                    EntryView {
                        text: r.ident_ids@[i],
                        visible: false,
                        region: Region::zero_spec(),
                    },
            ));
        }
        r
    }

    pub fn len(&self) -> (n: usize)
        ensures
            n == self@.entries.len(),
    {
        self.ident_ids.len()
    }

    /// Captures the current table length; [`Self::revert`] rolls visibility
    /// back to it.
    pub fn snapshot(&self) -> (marker: usize)
        requires
            self.wf(),
        ensures
            marker == self@.entries.len(),
    {
        self.ident_ids.len()
    }

    /// Makes every entry allocated at or after `marker` invisible. Nothing
    /// is removed: symbols already handed out stay valid, they merely stop
    /// being resolvable by name. A no-op when `marker` is the current
    /// length.
    pub fn revert(&mut self, marker: usize)
        requires
            old(self).wf(),
        ensures
            final(self).wf(),
            final(self)@.home == old(self)@.home,
            final(self)@.entries == revert_entries(old(self)@.entries, marker as int),
    {
        let n: usize = bits_len(&self.in_scope);
        let mut i: usize = marker;
        while i < n
            invariant
                old(self).wf(),
                n == old(self).ident_ids@.len(),
                marker <= i,
                i <= n || i == marker,  // a marker past the table length makes this a no-op
                self.ident_ids@ == old(self).ident_ids@,
                self.regions@ == old(self).regions@,
                self.home == old(self).home,
                bits_of(self.in_scope).len() == n,
                forall|j: int|
                    0 <= j < n && (j < marker || j >= i) ==> bits_of(self.in_scope)[j] == bits_of(
                        old(self).in_scope,
                    )[j],
                forall|j: int| marker <= j < i ==> bits_of(self.in_scope)[j] == false,
            decreases n - i,
        {
            bits_set(&mut self.in_scope, i, false);
            i = i + 1;
        }
        proof {
            assert(final(self)@.entries =~= revert_entries(old(self)@.entries, marker as int));
        }
    }

    /// The first entry ever allocated under `name`, visible or not; used to
    /// keep the identifier index of a pre-seeded exposed name stable.
    pub fn first_id_of(&self, name: &Ident) -> (r: Option<u32>)
        requires
            self.wf(),
        ensures
            match r {
                Some(id) => {
                    &&& has_any(self@.entries, text_match(name@))
                    &&& id as int == first_where(self@.entries, text_match(name@))
                    &&& (id as int) < self@.entries.len()
                },
                None => !has_any(self@.entries, text_match(name@)),
            },
    {
        let r = self.ident_ids.get_id(name);
        proof {
            let entries = self@.entries;
            let p = text_match(name@);
            match r {
                Some(id) => {
                    assert(forall|j: int| 0 <= j < id ==> !p(#[trigger] entries[j]));
                    assert(p(entries[id as int]));
                    lemma_first_unique(entries, p, id as int);
                },
                None => {
                    assert(forall|j: int| 0 <= j < entries.len() ==> !p(#[trigger] entries[j]));
                },
            }
        }
        r
    }

    /// The text of the entry at `id` (empty for internally generated ones).
    pub fn text_at(&self, id: usize) -> (r: &Ident)
        requires
            self.wf(),
            id < self@.entries.len(),
        ensures
            r@ == self@.entries[id as int].text,
    {
        self.ident_ids.text_at(id)
    }

    /// Whether the entry at `id` is currently resolvable by name.
    pub fn visible_at(&self, id: usize) -> (r: bool)
        requires
            self.wf(),
            id < self@.entries.len(),
        ensures
            r == self@.entries[id as int].visible,
    {
        bits_get(&self.in_scope, id)
    }

    /// Scans every entry ever allocated under `name` and returns the first
    /// currently visible one; absence means the name is not resolvable
    /// among the locals.
    pub fn has_in_scope(&self, name: &Ident) -> (r: Option<(Symbol, Region)>)
        requires
            self.wf(),
        ensures
            r == local_resolution(self@.home, self@.entries, name@),
    {
        let n: usize = self.ident_ids.len();
        let mut i: usize = 0;
        while i < n
            invariant
                self.wf(),
                n == self@.entries.len(),
                i <= n,
                forall|j: int| 0 <= j < i ==> !visible_match(name@)(#[trigger] self@.entries[j]),
            decreases n - i,
        {
            if bits_get(&self.in_scope, i) && self.ident_ids.text_at(i).text_eq(name) {
                let sym = Symbol::new(self.home, i as u32);
                let region = self.regions[i];
                proof {
                    lemma_first_unique(self@.entries, visible_match(name@), i as int);
                }
                return Some((sym, region));
            }
            i = i + 1;
        }
        proof {
            assert(!has_any(self@.entries, visible_match(name@)));
        }
        None
    }

    /// The texts of all currently visible entries, in allocation order, for
    /// diagnostics.
    pub fn idents_in_scope(&self) -> (r: Vec<Ident>)
        requires
            self.wf(),
        ensures
            text_seq(r@) == visible_texts(self@.entries),
    {
        let n: usize = self.ident_ids.len();
        let mut r: Vec<Ident> = Vec::new();
        let mut i: usize = 0;
        while i < n
            invariant
                self.wf(),
                n == self@.entries.len(),
                i <= n,
                text_seq(r@) == visible_texts(self@.entries.take(i as int)),
            decreases n - i,
        {
            proof {
                assert(self@.entries.take(i as int + 1).drop_last() =~= self@.entries.take(i as int));
                assert(self@.entries.take(i as int + 1).last() == self@.entries[i as int]);
            }
            if bits_get(&self.in_scope, i) {
                r.push(self.ident_ids.text_at(i).clone());
                proof {
                    assert(text_seq(r@) =~= visible_texts(self@.entries.take(i as int + 1)));
                }
            } else {
                proof {
                    assert(text_seq(r@) =~= visible_texts(self@.entries.take(i as int + 1)));
                }
            }
            i = i + 1;
        }
        proof {
            assert(self@.entries.take(n as int) =~= self@.entries);
        }
        r
    }

    /// Allocates a fresh entry for `name`, immediately visible, with its
    /// declaring region; returns the new identifier index.
    pub fn introduce_into_scope(&mut self, ident_name: &Ident, region: Region) -> (id: u32)
        requires
            old(self).wf(),
            old(self)@.entries.len() < MAX_IDENT_ENTRIES,
        ensures
            final(self).wf(),
            final(self)@.home == old(self)@.home,
            final(self)@.entries == old(self)@.entries.push(
                EntryView { text: ident_name@, visible: true, region },
            ),
            id as int == old(self)@.entries.len(),
    {
        let id = self.ident_ids.add_ident(ident_name);
        bits_push(&mut self.in_scope, true);
        self.regions.push(region);
        proof {
            assert(final(self)@.entries =~= old(self)@.entries.push(
                EntryView { text: ident_name@, visible: true, region },
            ));
        }
        id
    }

    /// Allocates a fresh entry for `name` without making it visible, and
    /// returns its symbol: the name can still be introduced later, and for
    /// error recovery the symbol is usable downstream.
    pub fn scopeless_symbol(&mut self, ident_name: &Ident, region: Region) -> (s: Symbol)
        requires
            old(self).wf(),
            old(self)@.entries.len() < MAX_IDENT_ENTRIES,
        ensures
            final(self).wf(),
            final(self)@.home == old(self)@.home,
            final(self)@.entries == old(self)@.entries.push(
                EntryView { text: ident_name@, visible: false, region },
            ),
            s == (Symbol {
                module_id: old(self)@.home,
                ident_id: old(self)@.entries.len() as u32,
            }),
    {
        let id = self.ident_ids.add_ident(ident_name);
        bits_push(&mut self.in_scope, false);
        self.regions.push(region);
        proof {
            assert(final(self)@.entries =~= old(self)@.entries.push(
                EntryView { text: ident_name@, visible: false, region },
            ));
        }
        Symbol::new(self.home, id)
    }

    /// Allocates a compiler-internal entry with no stable textual name,
    /// invisible to lookup.
    pub fn gen_unique(&mut self) -> (id: u32)
        requires
            old(self).wf(),
            old(self)@.entries.len() < MAX_IDENT_ENTRIES,
        ensures
            final(self).wf(),
            final(self)@.home == old(self)@.home,
            final(self)@.entries == old(self)@.entries.push(
                EntryView { text: Seq::empty(), visible: false, region: Region::zero_spec() },
            ),
            id as int == old(self)@.entries.len(),
    {
        let id = self.ident_ids.add_unique();
        bits_push(&mut self.in_scope, false);
        self.regions.push(Region::zero());
        proof {
            assert(final(self)@.entries =~= old(self)@.entries.push(
                EntryView { text: Seq::empty(), visible: false, region: Region::zero_spec() },
            ));
        }
        id
    }

    /// Re-activates the pre-seeded entry at `id`, overwriting its recorded
    /// region with the new declaration's; the entry's identifier index, and
    /// so its symbol, stays what the module header promised other modules.
    pub fn reactivate(&mut self, id: u32, region: Region)
        requires
            old(self).wf(),
            (id as int) < old(self)@.entries.len(),
        ensures
            final(self).wf(),
            final(self)@.home == old(self)@.home,
            final(self)@.entries == old(self)@.entries.update(
                id as int,
                EntryView {
                    text: old(self)@.entries[id as int].text,
                    visible: true,
                    region,
                },
            ),
    {
        bits_set(&mut self.in_scope, id as usize, true);
        self.regions[id as usize] = region;
        proof {
            assert(final(self)@.entries =~= old(self)@.entries.update(
                id as int,
                EntryView {
                    text: old(self)@.entries[id as int].text,
                    visible: true,
                    region,
                },
            ));
        }
    }
}

} // verus!
