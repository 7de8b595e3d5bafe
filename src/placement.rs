use vstd::prelude::*;
use vstd::hash_map::StringHashMap;

use crate::symbol_table::SymbolTag;

verus! {

/// Where the copy of a symbol's section landed in an output buffer.
#[derive(Debug, Clone)]
pub struct Placement {
    pub tag: SymbolTag,
    pub offset: usize,
    pub size: usize,
}

/// Placements of one output buffer in the order they were made, indexed by tag.
pub struct PlacementMap {
    entries: Vec<Placement>,
    index: StringHashMap<usize>,
}

impl View for PlacementMap {
    type V = Seq<Placement>;

    closed spec fn view(&self) -> Seq<Placement> {
        self.entries@
    }
}

impl PlacementMap {
    /// Tags are distinct and the index finds each one.
    pub closed spec fn wf(&self) -> bool {
        &&& forall|i: int|
            0 <= i < self.entries@.len() ==> #[trigger] self.index@.contains_key(
                self.entries@[i].tag@,
            ) && self.index@[self.entries@[i].tag@] == i
        &&& forall|t: Seq<char>|
            #[trigger] self.index@.contains_key(t) ==> self.index@[t] < self.entries@.len()
                && self.entries@[self.index@[t] as int].tag@ == t
    }

    /// `t` has a placement here.
    pub open spec fn has(&self, t: Seq<char>) -> bool {
        exists|i: int| 0 <= i < self@.len() && #[trigger] self@[i].tag@ == t
    }

    pub proof fn lemma_distinct(&self)
        requires
            self.wf(),
        ensures
            forall|i: int, j: int|
                0 <= i < j < self@.len() ==> #[trigger] self@[i].tag@ != #[trigger] self@[j].tag@,
    {
        assert forall|i: int, j: int| 0 <= i < j < self@.len() implies #[trigger] self@[i].tag@
            != #[trigger] self@[j].tag@ by {
            assert(self.index@.contains_key(self.entries@[i].tag@));
            assert(self.index@.contains_key(self.entries@[j].tag@));
        }
    }

    pub fn new() -> (r: Self)
        ensures
            r.wf(),
            r@.len() == 0,
    {
        Self { entries: Vec::new(), index: StringHashMap::new() }
    }

    pub fn len(&self) -> (r: usize)
        ensures
            r == self@.len(),
    {
        self.entries.len()
    }

    pub fn entry(&self, i: usize) -> (r: &Placement)
        requires
            i < self@.len(),
        ensures
            *r == self@[i as int],
    {
        &self.entries[i]
    }

    /// The position of the placement of `tag`.
    pub fn position(&self, tag: &SymbolTag) -> (r: Option<usize>)
        requires
            self.wf(),
        ensures
            match r {
                Some(i) => i < self@.len() && self@[i as int].tag@ == tag@,
                None => !self.has(tag@),
            },
    {
        match self.index.get(tag.0.as_str()) {
            Some(i) => Some(*i),
            None => {
                assert forall|i: int| 0 <= i < self@.len() implies #[trigger] self@[i].tag@
                    != tag@ by {
                    assert(self.index@.contains_key(self.entries@[i].tag@));
                }
                None
            },
        }
    }

    pub fn contains(&self, tag: &SymbolTag) -> (r: bool)
        requires
            self.wf(),
        ensures
            r == self.has(tag@),
    {
        self.position(tag).is_some()
    }

    /// Records a placement for a tag that has none yet.
    pub fn insert(&mut self, placement: Placement)
        requires
            old(self).wf(),
            !old(self).has(placement.tag@),
        ensures
            final(self).wf(),
            final(self)@ == old(self)@.push(placement),
            forall|t: Seq<char>| #[trigger] final(self).has(t) <==> old(self).has(t) || t == placement.tag@,
    {
        let ghost old_entries = self.entries@;
        let n = self.entries.len();
        self.index.insert(placement.tag.0.clone(), n);
        self.entries.push(placement);
        assert forall|i: int| 0 <= i < self.entries@.len() implies #[trigger] self.index@.contains_key(
            self.entries@[i].tag@,
        ) && self.index@[self.entries@[i].tag@] == i by {
            if i < n {
                assert(old(self)@[i].tag@ == old_entries[i].tag@);
                assert(old_entries[i].tag@ != placement.tag@);
                assert(old(self).index@.contains_key(old(self).entries@[i].tag@));
            }
        }
        assert forall|t: Seq<char>| #[trigger] self.index@.contains_key(t) implies self.index@[t]
            < self.entries@.len() && self.entries@[self.index@[t] as int].tag@ == t by {
            if t != placement.tag@ {
                assert(old(self).index@.contains_key(t));
            }
        }
        assert forall|t: Seq<char>| #[trigger] self.has(t) <==> old(self).has(t) || t == placement.tag@ by {
            if old(self).has(t) {
                let i = choose|i: int| 0 <= i < old(self)@.len() && #[trigger] old(self)@[i].tag@ == t;
                assert(self@[i] == old(self)@[i]);
            }
            if t == placement.tag@ {
                assert(self@[n as int] == placement);
            }
            if self.has(t) {
                let i = choose|i: int| 0 <= i < self@.len() && #[trigger] self@[i].tag@ == t;
                if i < n {
                    assert(self@[i] == old(self)@[i]);
                }
            }
        }
    }
}

} // verus!
