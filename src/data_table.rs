use vstd::prelude::*;

use crate::symbol_table::SymbolTag;
use crate::uid_generator::{UniqueId, UniqueIdGenerator};

verus! {

/// How a relocation computes the value it writes.
#[derive(Debug, Clone, Copy, PartialEq, Eq, Structural)]
pub enum RelocationType {
    /// Target address plus the addend stored in place.
    Absolute,
    /// Target address minus the address just past the patched word.
    Relative,
}

/// A fixup of `size` bytes at `offset` inside the owning section.
#[derive(Debug, Clone)]
pub struct RelocationEntry {
    pub target: SymbolTag,
    pub size: usize,
    pub rtype: RelocationType,
    pub offset: usize,
}

#[derive(Debug, Clone, Copy, PartialEq, Eq, Structural)]
pub enum DataKind {
    Code,
    Data,
}

/// A section taken from an input object.
#[derive(Debug, Clone)]
pub struct DataEntry {
    pub alignment: usize,
    pub data: Vec<u8>,
    /// Declared size; past `data` the section is zero-filled (BSS).
    pub size: usize,
    pub kind: DataKind,
    pub relocations: Vec<RelocationEntry>,
}

impl DataEntry {
    /// The number of bytes the section occupies once laid out.
    pub open spec fn span(&self) -> nat {
        if self.size >= self.data@.len() {
            self.size as nat
        } else {
            self.data@.len()
        }
    }

    /// The alignment is positive, the declared size covers the bytes, and
    /// every relocation lies inside the section.
    pub open spec fn wf(&self) -> bool {
        &&& self.alignment > 0
        &&& self.size >= self.data@.len()
        &&& forall|i: int|
            0 <= i < self.relocations.len() ==> #[trigger] self.relocations[i].offset
                + self.relocations[i].size <= self.span()
    }
}

/// Every entry of a table is well formed.
pub open spec fn entries_wf(dt: Seq<DataEntry>) -> bool {
    forall|i: int| 0 <= i < dt.len() ==> #[trigger] dt[i].wf()
}

/// The section table: entries are keyed by the handle that `register` returned.
pub struct DataTable {
    data_map: Vec<DataEntry>,
    uid_generator: UniqueIdGenerator,
}

impl View for DataTable {
    type V = Seq<DataEntry>;

    /// The entries in registration order; the handle of entry `i` is `i + 1`.
    closed spec fn view(&self) -> Seq<DataEntry> {
        self.data_map@
    }
}

impl DataTable {
    pub closed spec fn wf(&self) -> bool {
        self.uid_generator.last() == self.data_map.len()
    }

    pub proof fn lemma_len_bound(&self)
        requires
            self.wf(),
        ensures
            self@.len() <= u64::MAX,
    {
    }

    pub open spec fn contains(&self, uid: UniqueId) -> bool {
        1 <= uid.0 <= self@.len()
    }

    /// The entry registered under `uid`.
    pub open spec fn entry(&self, uid: UniqueId) -> DataEntry
        recommends
            self.contains(uid),
    {
        self@[uid.0 - 1]
    }

    pub fn new() -> (r: Self)
        ensures
            r.wf(),
            r@ == Seq::<DataEntry>::empty(),
    {
        Self { data_map: Vec::new(), uid_generator: UniqueIdGenerator::new() }
    }

    /// Stores `data_entry` and returns its fresh handle.
    pub fn register(&mut self, data_entry: DataEntry) -> (r: UniqueId)
        requires
            old(self).wf(),
            old(self)@.len() < u64::MAX,
        ensures
            final(self).wf(),
            final(self)@ == old(self)@.push(data_entry),
            r.0 == final(self)@.len(),
            !old(self).contains(r),
            final(self).contains(r),
    {
        let uid = self.uid_generator.next();
        self.data_map.push(data_entry);
        uid
    }

    pub fn get(&self, uid: &UniqueId) -> (r: Option<&DataEntry>)
        requires
            self.wf(),
        ensures
            match r {
                Some(e) => self.contains(*uid) && *e == self.entry(*uid),
                None => !self.contains(*uid),
            },
    {
        if 1 <= uid.0 && uid.0 <= self.data_map.len() as u64 {
            Some(&self.data_map[(uid.0 - 1) as usize])
        } else {
            None
        }
    }

    /// The entry registered under `uid`, for modification.
    pub fn get_mut(&mut self, uid: &UniqueId) -> (r: Option<&mut DataEntry>)
        requires
            old(self).wf(),
        ensures
            match r {
                Some(e) => {
                    &&& old(self).contains(*uid)
                    &&& *e == old(self).entry(*uid)
                    &&& final(self)@ == old(self)@.update(uid.0 - 1, *final(e))
                    &&& final(self).wf()
                },
                None => !old(self).contains(*uid) && final(self)@ == old(self)@ && final(self).wf(),
            },
    {
        if 1 <= uid.0 && uid.0 <= self.data_map.len() as u64 {
            let i = (uid.0 - 1) as usize;
            Some(&mut self.data_map[i])
        } else {
            None
        }
    }
}

} // verus!
