use vstd::prelude::*;

verus! {

/// Upper bound on the number of identifier-table entries one module may hold.
/// Far below the capacity limit of the bit-vector that tracks visibility, and
/// small enough that every entry index fits in the `u32` a symbol carries.
pub const MAX_IDENT_ENTRIES: usize = 0x0400_0000;

/// The texts of a sequence of names, in order.
pub open spec fn text_seq(s: Seq<Ident>) -> Seq<Seq<char>> {
    Seq::new(s.len(), |i: int| s[i]@)
}

/// The indices of every entry among the first `n` whose text is `name`, in
/// allocation order.
pub open spec fn ids_with_text(idents: Seq<Seq<char>>, name: Seq<char>, n: int) -> Seq<int>
    decreases n,
{
    if n <= 0 {
        Seq::empty()
    } else {
        let prefix = ids_with_text(idents, name, n - 1);
        if idents[n - 1] == name {
            prefix.push(n - 1)
        } else {
            prefix
        }
    }
}

/// A normalized textual name as written in source. Not unique: several
/// symbols may share one `Ident` (shadowing and scopeless allocations).
#[derive(Debug, PartialEq, Eq)]
pub struct Ident {
    text: String,
}

impl View for Ident {
    type V = Seq<char>;

    closed spec fn view(&self) -> Seq<char> {
        self.text@
    }
}

impl Ident {
    pub fn from_text(text: &str) -> (r: Ident)
        ensures
            r@ == text@,
    {
        Ident { text: text.to_owned() }
    }

    pub fn as_str(&self) -> (r: &str)
        ensures
            r@ == self@,
    {
        self.text.as_str()
    }

    /// Whether two names are the same text.
    pub fn text_eq(&self, other: &Ident) -> (r: bool)
        ensures
            r == (self@ == other@),
    {
        self.text == other.text
    }

    pub fn is_empty(&self) -> (r: bool)
        ensures
            r == (self@.len() == 0),
    {
        self.text.as_str().is_empty()
    }
}

impl Clone for Ident {
    fn clone(&self) -> (r: Self)
        ensures
            r@ == self@,
    {
        Ident { text: self.text.clone() }
    }
}

/// Append-only registry of identifier texts for one module; the index of an
/// entry is the identifier id a symbol carries. Entries are never removed,
/// and several entries may share the same text.
#[derive(Debug)]
pub struct IdentIds {
    interned: Vec<Ident>,
}

impl View for IdentIds {
    type V = Seq<Seq<char>>;

    closed spec fn view(&self) -> Seq<Seq<char>> {
        Seq::new(self.interned@.len(), |i: int| self.interned@[i]@)
    }
}

impl Default for IdentIds {
    fn default() -> (r: Self)
        ensures
            r@ == Seq::<Seq<char>>::empty(),
    {
        let r = IdentIds { interned: Vec::new() };
        proof {
            assert(r@ =~= Seq::<Seq<char>>::empty());
        }
        r
    }
}

impl IdentIds {
    pub fn len(&self) -> (n: usize)
        ensures
            n == self@.len(),
    {
        self.interned.len()
    }

    /// Text of the entry at `id`; entries made by `add_unique` hold the
    /// empty text.
    pub fn text_at(&self, id: usize) -> (r: &Ident)
        requires
            id < self@.len(),
        ensures
            r@ == self@[id as int],
    {
        &self.interned[id]
    }

    /// Allocates a fresh entry for `name`, even if `name` already has
    /// entries, and returns its index.
    pub fn add_ident(&mut self, name: &Ident) -> (id: u32)
        requires
            old(self)@.len() < MAX_IDENT_ENTRIES,
        ensures
            final(self)@ == old(self)@.push(name@),
            id as int == old(self)@.len(),
    {
        let id: usize = self.interned.len();
        self.interned.push(name.clone());
        proof {
            assert(self@ =~= old(self)@.push(name@));
        }
        id as u32
    }

    /// Allocates a fresh entry with no stable textual name, for symbols the
    /// compiler synthesizes itself.
    pub fn add_unique(&mut self) -> (id: u32)
        requires
            old(self)@.len() < MAX_IDENT_ENTRIES,
        ensures
            final(self)@ == old(self)@.push(Seq::<char>::empty()),
            id as int == old(self)@.len(),
    {
        let id: usize = self.interned.len();
        self.interned.push(Ident::from_text(""));
        proof {
            reveal_strlit("");
            assert(""@ =~= Seq::<char>::empty());
            assert(self@ =~= old(self)@.push(Seq::<char>::empty()));
        }
        id as u32
    }

    /// Every entry ever allocated for `name`, in allocation order; several
    /// entries may share one text through shadow and scopeless allocations.
    pub fn lookup_all(&self, name: &Ident) -> (r: Vec<u32>)
        requires
            self@.len() <= MAX_IDENT_ENTRIES,
        ensures
            Seq::new(r@.len(), |k: int| r@[k] as int) == ids_with_text(
                self@,
                name@,
                self@.len() as int,
            ),
    {
        let n: usize = self.interned.len();
        let mut r: Vec<u32> = Vec::new();
        let mut i: usize = 0;
        while i < n
            invariant
                n == self@.len(),
                n <= MAX_IDENT_ENTRIES,
                i <= n,
                Seq::new(r@.len(), |k: int| r@[k] as int) == ids_with_text(self@, name@, i as int),
            decreases n - i,
        {
            if self.interned[i].text_eq(name) {
                r.push(i as u32);
            }
            proof {
                assert(Seq::new(r@.len(), |k: int| r@[k] as int) =~= ids_with_text(
                    self@,
                    name@,
                    i as int + 1,
                ));
            }
            i = i + 1;
        }
        r
    }

    /// The first entry ever allocated for `name`, regardless of visibility;
    /// used to keep the identifier index of a pre-seeded exposed name.
    pub fn get_id(&self, name: &Ident) -> (r: Option<u32>)
        requires
            self@.len() <= MAX_IDENT_ENTRIES,
        ensures
            match r {
                Some(id) => {
                    &&& id < self@.len()
                    &&& self@[id as int] == name@
                    &&& forall|j: int| 0 <= j < id ==> self@[j] != name@
                },
                None => forall|j: int| 0 <= j < self@.len() ==> self@[j] != name@,
            },
    {
        let n: usize = self.interned.len();
        let mut i: usize = 0;
        while i < n
            invariant
                n == self@.len(),
                n <= MAX_IDENT_ENTRIES,
                i <= n,
                forall|j: int| 0 <= j < i ==> self@[j] != name@,
            decreases n - i,
        {
            if self.interned[i].text_eq(name) {
                proof {
                    assert(i < MAX_IDENT_ENTRIES);
                }
                return Some(i as u32);
            }
            i = i + 1;
        }
        None
    }
}

} // verus!
