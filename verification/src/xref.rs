//! A minimal cross-reference resolver: the collaborator that maps an object
//! identifier to the byte offset where that object's definition starts.
//!
//! The document-wide construction of the table is outside this core; this
//! type is the queryable interface the parsing engine consumes, plus a
//! context-free ("dummy") instance for parsing fragments with no owning
//! document.

use vstd::prelude::*;
use crate::object::ObjectIdentifier;

verus! {

/// The first entry of `es` whose number and generation match, if any.
pub open spec fn find_entry(es: Seq<(u64, u64, usize)>, num: u64, generation: u64) -> Option<usize>
    decreases es.len(),
{
    if es.len() == 0 {
        None
    } else if es[0].0 == num && es[0].1 == generation {
        Some(es[0].2)
    } else {
        find_entry(es.drop_first(), num, generation)
    }
}

/// A cross-reference table: `(number, generation, offset)` entries,
/// queried in order.
pub struct XRef {
    entries: Vec<(u64, u64, usize)>,
}

impl XRef {
    pub closed spec fn spec_entries(&self) -> Seq<(u64, u64, usize)> {
        self.entries@
    }

    /// Where the object with this identifier is stored, if anywhere.
    pub open spec fn locate_spec(&self, id: ObjectIdentifier) -> Option<usize> {
        find_entry(self.spec_entries(), id.number, id.generation)
    }

    pub fn new() -> (r: Self)
        ensures
            r.spec_entries() == Seq::<(u64, u64, usize)>::empty(),
    {
        XRef { entries: Vec::new() }
    }

    /// The context-free instance: it locates nothing.
    pub fn dummy() -> (r: Self)
        ensures
            r.spec_entries() == Seq::<(u64, u64, usize)>::empty(),
            forall|id: ObjectIdentifier| r.locate_spec(id) is None,
    {
        XRef { entries: Vec::new() }
    }

    /// Records that the object `id` is stored at `offset`.
    pub fn add(&mut self, id: ObjectIdentifier, offset: usize)
        ensures
            final(self).spec_entries()
                == old(self).spec_entries().push((id.number, id.generation, offset)),
    {
        self.entries.push((id.number, id.generation, offset));
    }

    /// Looks the identifier up, without mutating anything.
    pub fn locate(&self, id: ObjectIdentifier) -> (r: Option<usize>)
        ensures
            r == self.locate_spec(id),
    {
        proof {
            assert(self.entries@.skip(0) =~= self.entries@);
        }
        let mut i: usize = 0;
        while i < self.entries.len()
            invariant
                i <= self.entries@.len(),
                find_entry(self.entries@, id.number, id.generation)
                    == find_entry(self.entries@.skip(i as int), id.number, id.generation),
            decreases self.entries@.len() - i,
        {
            let e = self.entries[i];
            if e.0 == id.number && e.1 == id.generation {
                proof {
                    assert(self.entries@.skip(i as int)[0] == self.entries@[i as int]);
                }
                return Some(e.2);
            }
            proof {
                assert(self.entries@.skip(i as int).drop_first()
                    =~= self.entries@.skip(i as int + 1));
                assert(self.entries@.skip(i as int)[0] == self.entries@[i as int]);
            }
            i = i + 1;
        }
        proof {
            assert(self.entries@.skip(i as int).len() == 0);
        }
        None
    }
}

} // verus!
