use vstd::prelude::*;

verus! {

use crate::ident::Ident;
use crate::ident::text_seq;

/// A process-wide, append-only registry of debug-readable names keyed by
/// module: initialized empty at process start, populated once per module at
/// the end of its canonicalization, read-only thereafter. Held and threaded
/// explicitly by the caller rather than reached as an ambient global.
#[derive(Debug)]
pub struct DebugNameRegistry {
    entries: Vec<(u32, Vec<Ident>)>,
}

impl View for DebugNameRegistry {
    type V = Seq<(u32, Seq<Seq<char>>)>;

    closed spec fn view(&self) -> Seq<(u32, Seq<Seq<char>>)> {
        Seq::new(self.entries@.len(), |i: int| (self.entries@[i].0, text_seq(self.entries@[i].1@)))
    }
}

impl Default for DebugNameRegistry {
    fn default() -> (r: Self)
        ensures
            r@ == Seq::<(u32, Seq<Seq<char>>)>::empty(),
    {
        let r = DebugNameRegistry { entries: Vec::new() };
        proof {
            assert(r@ =~= Seq::<(u32, Seq<Seq<char>>)>::empty());
        }
        r
    }
}

impl DebugNameRegistry {
    /// Appends one module's identifier names.
    pub fn register(&mut self, module_id: u32, names: Vec<Ident>)
        ensures
            final(self)@ == old(self)@.push((module_id, text_seq(names@))),
    {
        self.entries.push((module_id, names));
        proof {
            assert(final(self)@ =~= old(self)@.push((module_id, text_seq(names@))));
        }
    }

    pub fn len(&self) -> (n: usize)
        ensures
            n == self@.len(),
    {
        self.entries.len()
    }

    /// The names recorded for `module_id`, if any were registered; the first
    /// registration wins.
    pub fn names_of(&self, module_id: u32) -> (r: Option<&Vec<Ident>>)
        ensures
            match r {
                Some(names) => exists|i: int|
                    0 <= i < self@.len() && #[trigger] self@[i] == (module_id, text_seq(names@)),
                None => forall|i: int| 0 <= i < self@.len() ==> (#[trigger] self@[i]).0 != module_id,
            },
    {
        let n: usize = self.entries.len();
        let mut i: usize = 0;
        while i < n
            invariant
                n == self@.len(),
                i <= n,
                forall|j: int| 0 <= j < i ==> (#[trigger] self@[j]).0 != module_id,
            decreases n - i,
        {
            if self.entries[i].0 == module_id {
                proof {
                    assert(self@[i as int] == (module_id, text_seq(self.entries@[i as int].1@)));
                }
                return Some(&self.entries[i].1);
            }
            i = i + 1;
        }
        None
    }
}

} // verus!
