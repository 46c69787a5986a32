//! The user-maintained catalog: a read-only mapping from short project names
//! to repository descriptors.

use vstd::prelude::*;

verus! {

/// One catalog entry: a name bound to a clone origin, an optional customizer
/// filename, and an optional description.
#[derive(Debug)]
pub struct CatalogEntry {
    pub name: String,
    pub origin: String,
    pub customizer: Option<String>,
    pub description: Option<String>,
}

/// The specification-level image of an entry.
#[verifier::ext_equal]
pub struct CatalogEntryV {
    pub name: Seq<char>,
    pub origin: Seq<char>,
    pub customizer: Option<Seq<char>>,
    pub description: Option<Seq<char>>,
}

impl View for CatalogEntry {
    type V = CatalogEntryV;

    open spec fn view(&self) -> CatalogEntryV {
        CatalogEntryV {
            name: self.name@,
            origin: self.origin@,
            customizer: match self.customizer {
                Some(ref c) => Some(c@),
                None => None,
            },
            description: match self.description {
                Some(ref d) => Some(d@),
                None => None,
            },
        }
    }
}

pub open spec fn entries_view(v: Seq<CatalogEntry>) -> Seq<CatalogEntryV> {
    v.map_values(|e: CatalogEntry| e@)
}

/// The first entry called `name`, if any.
pub open spec fn find_entry(s: Seq<CatalogEntryV>, name: Seq<char>) -> Option<CatalogEntryV>
    decreases s.len(),
{
    if s.len() == 0 {
        None
    } else if s[0].name == name {
        Some(s[0])
    } else {
        find_entry(s.drop_first(), name)
    }
}

/// Entry names are pairwise distinct.
pub open spec fn distinct_names(s: Seq<CatalogEntryV>) -> bool {
    forall|a: int, b: int| 0 <= a < b < s.len() ==> (#[trigger] s[a]).name != (#[trigger] s[b]).name
}

/// `find_entry` succeeds exactly when some entry bears the name.
proof fn lemma_find_entry_exists(s: Seq<CatalogEntryV>, name: Seq<char>)
    ensures
        find_entry(s, name) is Some <==> exists|i: int| 0 <= i < s.len() && (#[trigger] s[i]).name
            == name,
    decreases s.len(),
{
    if s.len() > 0 {
        lemma_find_entry_exists(s.drop_first(), name);
        if s[0].name != name {
            if exists|i: int| 0 <= i < s.len() && (#[trigger] s[i]).name == name {
                let i = choose|i: int| 0 <= i < s.len() && (#[trigger] s[i]).name == name;
                assert(s.drop_first()[i - 1].name == name);
            }
            if find_entry(s.drop_first(), name) is Some {
                let i = choose|i: int|
                    0 <= i < s.drop_first().len() && (#[trigger] s.drop_first()[i]).name == name;
                assert(s[i + 1].name == name);
            }
        }
    }
}

/// When the entry at `i` bears the name and no earlier one does, it is the
/// found entry.
proof fn lemma_find_entry_at(s: Seq<CatalogEntryV>, name: Seq<char>, i: int)
    requires
        0 <= i < s.len(),
        s[i].name == name,
        forall|t: int| 0 <= t < i ==> (#[trigger] s[t]).name != name,
    ensures
        find_entry(s, name) == Some(s[i]),
    decreases s.len(),
{
    if i > 0 {
        lemma_find_entry_at(s.drop_first(), name, i - 1);
    }
}

/// The catalog, held as a list of entries with pairwise distinct names.
#[derive(Debug)]
pub struct Catalog {
    entries: Vec<CatalogEntry>,
}

impl View for Catalog {
    type V = Seq<CatalogEntryV>;

    closed spec fn view(&self) -> Seq<CatalogEntryV> {
        entries_view(self.entries@)
    }
}

impl Catalog {
    /// The catalog with no entries.
    pub fn empty() -> (r: Catalog)
        ensures
            r@.len() == 0,
            distinct_names(r@),
    {
        let c = Catalog { entries: Vec::new() };
        proof {
            assert(c@ =~= Seq::<CatalogEntryV>::empty());
        }
        c
    }

    /// The number of entries.
    pub fn len(&self) -> (r: usize)
        ensures
            r == self@.len(),
    {
        self.entries.len()
    }

    /// The entry at position `i`, in insertion order.
    pub fn entry_at(&self, i: usize) -> (r: &CatalogEntry)
        requires
            i < self@.len(),
        ensures
            r@ == self@[i as int],
    {
        &self.entries[i]
    }

    /// Appends an entry unless its name is already bound; reports whether it
    /// was added.
    pub fn add(&mut self, entry: CatalogEntry) -> (added: bool)
        ensures
            added == (find_entry(old(self)@, entry@.name) is None),
            added ==> final(self)@ == old(self)@ + seq![entry@],
            !added ==> final(self)@ == old(self)@,
            distinct_names(old(self)@) ==> distinct_names(final(self)@),
    {
        let n = self.entries.len();
        let mut i: usize = 0;
        while i < n
            invariant
                i <= n,
                n == self@.len(),
                self@ == old(self)@,
                forall|t: int| 0 <= t < i ==> (#[trigger] self@[t]).name != entry@.name,
            decreases n - i,
        {
            proof {
                assert(self@[i as int] == self.entries@[i as int]@);
            }
            if crate::remote::str_eq(self.entries[i].name.as_str(), entry.name.as_str()) {
                proof {
                    lemma_find_entry_at(self@, entry@.name, i as int);
                }
                return false;
            }
            i = i + 1;
        }
        proof {
            lemma_find_entry_exists(self@, entry@.name);
        }
        let ghost old_view = self@;
        let ghost eview = entry@;
        self.entries.push(entry);
        proof {
            assert(self@ =~= old_view + seq![eview]);
            if distinct_names(old_view) {
                assert forall|a: int, b: int|
                    0 <= a < b < self@.len() implies (#[trigger] self@[a]).name != (
                #[trigger] self@[b]).name by {
                    if b < self@.len() - 1 {
                        assert(old_view[a].name != old_view[b].name);
                    } else {
                        if old_view[a].name == eview.name {
                            assert(false);
                        }
                    }
                }
            }
        }
        true
    }

    /// Looks the name up: the first (and, with distinct names, only) entry
    /// bound to it.
    pub fn get(&self, name: &str) -> (r: Option<&CatalogEntry>)
        ensures
            match r {
                Some(e) => find_entry(self@, name@) == Some(e@),
                None => find_entry(self@, name@) is None,
            },
    {
        let n = self.entries.len();
        let mut i: usize = 0;
        while i < n
            invariant
                i <= n,
                n == self@.len(),
                forall|t: int| 0 <= t < i ==> (#[trigger] self@[t]).name != name@,
            decreases n - i,
        {
            proof {
                assert(self@[i as int] == self.entries@[i as int]@);
            }
            if crate::remote::str_eq(self.entries[i].name.as_str(), name) {
                proof {
                    lemma_find_entry_at(self@, name@, i as int);
                }
                return Some(&self.entries[i]);
            }
            i = i + 1;
        }
        proof {
            lemma_find_entry_exists(self@, name@);
        }
        None
    }
}

} // verus!
