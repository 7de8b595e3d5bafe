use vstd::prelude::*;
use vstd::hash_map::StringHashMap;

use crate::error::LinkError;
use crate::uid_generator::UniqueId;

verus! {

/// The identity under which the symbol table keys a symbol.
#[derive(Debug, Clone, Eq, Hash)]
pub struct SymbolTag(pub String);

impl PartialEq for SymbolTag {
    fn eq(&self, o: &SymbolTag) -> (r: bool) {
        self.0 == o.0
    }
}

impl vstd::std_specs::cmp::PartialEqSpecImpl for SymbolTag {
    open spec fn obeys_eq_spec() -> bool {
        true
    }

    open spec fn eq_spec(&self, o: &SymbolTag) -> bool {
        self.0@ == o.0@
    }
}

impl View for SymbolTag {
    type V = Seq<char>;

    open spec fn view(&self) -> Seq<char> {
        self.0@
    }
}

impl SymbolTag {
    /// A copy of the tag.
    pub fn duplicate(&self) -> (r: SymbolTag)
        ensures
            r@ == self@,
    {
        SymbolTag(self.0.clone())
    }
}

#[derive(Debug, Clone, Copy, PartialEq, Eq, Structural, Hash)]
pub enum SymbolFlag {
    Global,
    Local,
    Weak,
}

/// Marker for a symbol that is referenced but not (yet) defined.
#[derive(Debug)]
pub struct UnresolvedSymbol;

/// A definition: the section it lives in, its offset there, and the flag
/// its binding gives it (none for a binding other than local, global or weak).
#[derive(Debug, Clone, Copy, PartialEq, Eq, Structural)]
pub struct ResolvedSymbol {
    pub target: UniqueId,
    pub offset: usize,
    pub flags: Option<SymbolFlag>,
}

impl ResolvedSymbol {
    pub open spec fn spec_is_global(&self) -> bool {
        self.flags == Some(SymbolFlag::Global)
    }

    pub open spec fn spec_is_weak(&self) -> bool {
        self.flags == Some(SymbolFlag::Weak)
    }

    #[verifier::when_used_as_spec(spec_is_global)]
    pub fn is_global(&self) -> (r: bool)
        ensures
            r == self.spec_is_global(),
    {
        self.flags == Some(SymbolFlag::Global)
    }

    #[verifier::when_used_as_spec(spec_is_weak)]
    pub fn is_weak(&self) -> (r: bool)
        ensures
            r == self.spec_is_weak(),
    {
        self.flags == Some(SymbolFlag::Weak)
    }
}

#[derive(Debug, Clone, Copy, PartialEq, Eq, Structural)]
pub enum SymbolEntry {
    Unresolved,
    Resolved(ResolvedSymbol),
}

/// What the table holds under `tag` once `incoming` is defined there, or
/// `None` where that is a second non-weak definition.
pub open spec fn merged_definition(
    existing: Option<SymbolEntry>,
    incoming: ResolvedSymbol,
) -> Option<SymbolEntry> {
    match existing {
        Some(SymbolEntry::Resolved(e)) => {
            if !e.spec_is_weak() && !incoming.spec_is_weak() {
                None
            } else if e.spec_is_weak() && !incoming.spec_is_weak() {
                Some(SymbolEntry::Resolved(incoming))
            } else {
                Some(SymbolEntry::Resolved(e))
            }
        },
        _ => Some(SymbolEntry::Resolved(incoming)),
    }
}

/// The symbol table: a map from tag to entry.
pub struct SymbolTable {
    tag_symbol_map: StringHashMap<SymbolEntry>,
}

impl View for SymbolTable {
    type V = Map<Seq<char>, SymbolEntry>;

    closed spec fn view(&self) -> Map<Seq<char>, SymbolEntry> {
        self.tag_symbol_map@
    }
}

impl SymbolTable {
    pub open spec fn wf(&self) -> bool {
        self@.dom().finite()
    }

    pub fn new() -> (r: Self)
        ensures
            r.wf(),
            r@ == Map::<Seq<char>, SymbolEntry>::empty(),
    {
        Self { tag_symbol_map: StringHashMap::new() }
    }

    pub fn get(&self, tag: &SymbolTag) -> (r: Option<&SymbolEntry>)
        ensures
            match r {
                Some(e) => self@.contains_key(tag@) && *e == self@[tag@],
                None => !self@.contains_key(tag@),
            },
    {
        self.tag_symbol_map.get(tag.0.as_str())
    }

    /// Records a reference: creates an `Unresolved` entry where `tag` has none.
    pub fn reference(&mut self, tag: &SymbolTag)
        requires
            old(self).wf(),
        ensures
            final(self).wf(),
            final(self)@ == if old(self)@.contains_key(tag@) {
                old(self)@
            } else {
                old(self)@.insert(tag@, SymbolEntry::Unresolved)
            },
    {
        if !self.tag_symbol_map.contains_key(tag.0.as_str()) {
            self.tag_symbol_map.insert(tag.0.clone(), SymbolEntry::Unresolved);
        }
    }

    /// Records a definition. A second non-weak definition of a tag fails; a
    /// global definition replaces a weak one; otherwise the first stays.
    pub fn define(&mut self, tag: &SymbolTag, resolved: ResolvedSymbol) -> (r: Result<(), LinkError>)
        requires
            old(self).wf(),
        ensures
            final(self).wf(),
            match merged_definition(old(self)@.get(tag@), resolved) {
                Some(e) => r is Ok && final(self)@ == old(self)@.insert(tag@, e),
                None => r matches Err(LinkError::MultipleDefinition { tag: t }) && t@ == tag@
                    && final(self)@ == old(self)@,
            },
    {
        let existing = self.tag_symbol_map.get(tag.0.as_str());
        match existing {
            Some(SymbolEntry::Resolved(e)) => {
                let existing_weak = e.is_weak();
                let incoming_weak = resolved.is_weak();
                if !existing_weak && !incoming_weak {
                    return Err(LinkError::MultipleDefinition { tag: tag.0.clone() });
                } else if existing_weak && !incoming_weak {
                    self.tag_symbol_map.insert(tag.0.clone(), SymbolEntry::Resolved(resolved));
                } else {
                    assert(old(self)@.insert(tag@, SymbolEntry::Resolved(*e)) =~= old(self)@);
                }
            },
            _ => {
                self.tag_symbol_map.insert(tag.0.clone(), SymbolEntry::Resolved(resolved));
            },
        }
        Ok(())
    }
}

} // verus!
