//! Inventory vectors: ordered lists of typed hashes, at most 50000 entries.

use vstd::prelude::*;


verus! {

/// The maximum number of entries an inventory vector may carry.
pub const INV_VECT_MAX: usize = 50000;

/// The kind of object an inventory entry announces.
#[derive(Clone, Copy, Debug, PartialEq, Eq)]
pub enum InvEntryType {
    Error,
    MsgTx,
    MsgBlock,
}

/// The wire code of an entry type.
pub open spec fn spec_entry_type_code(t: InvEntryType) -> u32 {
    match t {
        InvEntryType::Error => 0,
        InvEntryType::MsgTx => 1,
        InvEntryType::MsgBlock => 2,
    }
}

/// The wire code of an entry type.
pub fn entry_type_code(t: InvEntryType) -> (r: u32)
    ensures
        r == spec_entry_type_code(t),
{
    match t {
        InvEntryType::Error => 0,
        InvEntryType::MsgTx => 1,
        InvEntryType::MsgBlock => 2,
    }
}

/// One inventory entry: a typed hash.
#[derive(Debug)]
pub struct InvEntry {
    pub typ: InvEntryType,
    pub hash: crate::hash::Hash,
}

/// The mathematical value of an inventory entry.
pub struct InvEntryV {
    pub typ: InvEntryType,
    pub hash: Seq<u8>,
}

impl View for InvEntry {
    type V = InvEntryV;

    open spec fn view(&self) -> InvEntryV {
        InvEntryV { typ: self.typ, hash: self.hash@ }
    }
}

impl Clone for InvEntry {
    fn clone(&self) -> (r: Self)
        ensures
            r@ == self@,
    {
        InvEntry { typ: self.typ, hash: self.hash.clone() }
    }
}

impl InvEntry {
    /// Build an entry from a type and a hash.
    pub fn new(typ: InvEntryType, hash: crate::hash::Hash) -> (r: InvEntry)
        ensures
            r@ == (InvEntryV { typ, hash: hash@ }),
    {
        InvEntry { typ, hash }
    }
}

/// An ordered inventory vector. Its view is the sequence of entry values.
#[derive(Debug)]
pub struct InvVect {
    entries: Vec<InvEntry>,
}

impl View for InvVect {
    type V = Seq<InvEntryV>;

    closed spec fn view(&self) -> Seq<InvEntryV> {
        Seq::new(self.entries@.len(), |i: int| self.entries@[i]@)
    }
}

impl Clone for InvVect {
    fn clone(&self) -> (r: Self)
        ensures
            r@ == self@,
    {
        let mut entries: Vec<InvEntry> = Vec::new();
        let mut i: usize = 0;
        while i < self.entries.len()
            invariant
                i <= self.entries@.len(),
                entries@.len() == i,
                forall|j: int| 0 <= j < i ==> entries@[j]@ == self.entries@[j]@,
            decreases self.entries@.len() - i,
        {
            entries.push(self.entries[i].clone());
            i += 1;
        }
        let r = InvVect { entries };
        proof {
            assert(r@ =~= self@);
        }
        r
    }
}

impl InvVect {
    /// Every entry's hash is a well-formed 32-byte value.
    pub open spec fn wf(&self) -> bool {
        self@.len() <= INV_VECT_MAX && forall|i: int| 0 <= i < self@.len() ==> self@[i].hash.len()
            == 32
    }

    /// An empty inventory vector.
    pub fn new() -> (r: InvVect)
        ensures
            r@ =~= Seq::<InvEntryV>::empty(),
            r.wf(),
    {
        InvVect { entries: Vec::new() }
    }

    /// Append an entry; the vector must stay within the size bound.
    pub fn add(&mut self, entry: InvEntry)
        requires
            old(self)@.len() < INV_VECT_MAX,
        ensures
            final(self)@ =~= old(self)@.push(entry@),
    {
        self.entries.push(entry);
        proof {
            assert(self@ =~= old(self)@.push(entry@));
        }
    }

    /// The number of entries.
    pub fn len(&self) -> (r: usize)
        ensures
            r == self@.len(),
    {
        self.entries.len()
    }

    /// A reference to the entry at position `i`.
    pub fn get(&self, i: usize) -> (r: &InvEntry)
        requires
            i < self@.len(),
        ensures
            r@ == self@[i as int],
    {
        &self.entries[i]
    }
}

} // verus!
